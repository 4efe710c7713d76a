//! What the rewritten permutes by a vector compute, in the model of
//! [`crate::xlate::meaning`].
use crate::xlate::code::{Mvex, Rm};
use crate::xlate::ev::{Ev, Outcome};
use crate::xlate::insn::Decoded;
use crate::xlate::meaning;
use crate::xlate::meaning::Vm;
use crate::xlate::mnemonic as mn;
use crate::xlate::permute;
use crate::xlate::prog;
use crate::xlate::prog::{Prog, Step};
use vstd::prelude::*;

verus! {

/// Whether `b` goes on from `a`.
pub open spec fn begins(a: Seq<Seq<u8>>, b: Seq<Seq<u8>>) -> bool {
    a.len() <= b.len() && forall|i: int| 0 <= i < a.len() ==> #[trigger] a[i] == b[i]
}

/// A constant is where the sequence names it, whatever constants follow.
pub proof fn lemma_held(p: Prog, v: Seq<u32>, consts: Seq<Seq<u8>>)
    requires
        v.len() == 16,
        p.consts.len() < 8,
        begins(p.constant(prog::dwords(v)).consts, consts),
    ensures
        p.index_of(prog::dwords(v)) < consts.len(),
        meaning::words(consts[p.index_of(prog::dwords(v)) as int]) == v,
        begins(p.consts, consts),
        p.constant(prog::dwords(v)).consts.len() <= p.consts.len() + 1,
        p.constant(prog::dwords(v)) == (Prog {
            consts: p.constant(prog::dwords(v)).consts,
            ..p
        }),
{
    let c = prog::dwords(v);
    meaning::lemma_found(p.consts, c, 0);
    meaning::lemma_words(v);
    let all = p.constant(c).consts;
    let i = p.index_of(c) as int;
    assert(all[i] == c);
    assert(all[i] == consts[i]);
    assert forall|j: int| 0 <= j < p.consts.len() implies #[trigger] p.consts[j] == consts[j] by {
        assert(all[j] == p.consts[j]);
        assert(all[j] == consts[j]);
    }
}

/// The arithmetic of the indices.
proof fn lemma_index(q: u32, x: u32)
    ensures
        (q << 1u32) % 16 == 2 * (q % 8),
        (q << 1u32) % 8 == 2 * (q % 4),
        (q << 1u32) % 4 == 2 * (q % 2),
        (q << 1u32) / 16 % 2 == q / 8 % 2,
        (q << 1u32) / 8 % 2 == q / 4 % 2,
        (q << 1u32) / 4 % 2 == q / 2 % 2,
        (q << 1u32) <= 0xffff_fffe,
        (q << 1u32) % 2 == 0,
        x & 0x10 != 0 <==> x / 16 % 2 == 1,
        x & 8 != 0 <==> x / 8 % 2 == 1,
        x & 4 != 0 <==> x / 4 % 2 == 1,
        x & 3 == x % 4,
        x & 7 == x % 8,
        x & 1 == x % 2,
        x >> 1u32 == x / 2,
        (x & 1) << 1u32 == 2 * (x % 2),
{
    assert((q << 1u32) % 16 == 2 * (q % 8) && (q << 1u32) % 8 == 2 * (q % 4) && (q << 1u32) % 4 == 2
        * (q % 2) && (q << 1u32) / 16 % 2 == q / 8 % 2 && (q << 1u32) / 8 % 2 == q / 4 % 2 && (q
        << 1u32) / 4 % 2 == q / 2 % 2 && (q << 1u32) <= 0xffff_fffe && (q << 1u32) % 2 == 0 && (x
        & 0x10 != 0 <==> x / 16 % 2 == 1) && (x & 8 != 0 <==> x / 8 % 2 == 1) && (x & 4 != 0 <==> x
        / 4 % 2 == 1) && x & 3 == x % 4 && x & 7 == x % 8 && x & 1 == x % 2 && x >> 1u32 == x / 2
        && (x & 1) << 1u32 == 2 * (x % 2)) by (bit_vector);
}

/// A dword index made of a qword's, in a table of `n` dwords.
proof fn lemma_dword_index(n: u32, x: u32, one: u32)
    requires
        one < 2,
        n == 16 || n == 8 || n == 4,
    ensures
        ({
            let y = (((x << 1u32) + one) % 0x1_0000_0000) as u32;
            &&& y % n == 2 * (x % (n / 2)) + one
            &&& y / n % 2 == x / (n / 2) % 2
        }),
{
    lemma_index(x, 0);
}

/// Where the dword `i` of a permute of qwords is in a table of `n` dwords,
/// when `q` names the qword.
pub open spec fn in_qword(n: u32, q: u32, i: int) -> int {
    2 * (q % (n / 2)) + i % 2
}

/// Qword indices made dword indices.
proof fn lemma_qidx(p: Prog, consts: Seq<Seq<u8>>, vm: Vm, odd: usize, out: u8, q: u8, n: u32)
    requires
        n == 16 || n == 8 || n == 4,
        p.meaning(consts, vm).wf(),
        odd < consts.len(),
        meaning::words(consts[odd as int]) == permute::lane_parity(),
        out != q,
    ensures
        ({
            let before = p.meaning(consts, vm);
            let after = p.qidx_to_didx(odd, out, q).meaning(consts, vm);
            &&& meaning::put(before, after, out)
            &&& forall|i: int|
                0 <= i < 16 ==> (#[trigger] after.z[out][i]) % n == in_qword(
                    n,
                    before.z[q][i - i % 2],
                    i,
                )
            &&& forall|i: int|
                0 <= i < 16 ==> (#[trigger] after.z[out][i]) / n % 2 == before.z[q][i - i % 2] / (n
                    / 2) % 2
        }),
{
    let before = p.meaning(consts, vm);
    let p1 = p.vpshufd(out, Rm::Reg(q), 0xa0, 0);
    meaning::lemma_vpshufd(p, consts, vm, out, q, 0xa0, 0);
    let m1 = p1.meaning(consts, vm);
    let p2 = p1.shift_imm(6, out, Rm::Reg(out), 1, 0);
    meaning::lemma_shift_imm(p1, consts, vm, 6, out, out, 1, 0);
    let m2 = p2.meaning(consts, vm);
    meaning::lemma_i0f(p2, consts, vm, 0xFE, out, out, Rm::Const(odd), 0);
    let after = p.qidx_to_didx(odd, out, q).meaning(consts, vm);
    assert(after.z =~= before.z.insert(out, after.z[out]));
    assert forall|i: int| 0 <= i < 16 implies (#[trigger] after.z[out][i]) % n == in_qword(
        n,
        before.z[q][i - i % 2],
        i,
    ) && after.z[out][i] / n % 2 == before.z[q][i - i % 2] / (n / 2) % 2 by {
        let x = before.z[q][i - i % 2];
        meaning::lemma_fields((i % 4) as u8, 0);
        assert(m1.z[out][i] == x);
        assert(m2.z[out][i] == x << 1u32);
        let one = permute::lane_parity()[i];
        assert(one == i % 2);
        lemma_dword_index(n, x, one);
        assert(after.z[out][i] == (((x << 1u32) + one) % 0x1_0000_0000) as u32);
    }
}

/// A mask set where a vector has a bit of a constant's.
pub proof fn lemma_tested(p: Prog, consts: Seq<Seq<u8>>, vm: Vm, k: u8, a: u8, c: usize)
    requires
        c < consts.len(),
    ensures
        ({
            let before = p.meaning(consts, vm);
            let after = p.mvex(2, 1, 0, 0x27, k, a, Rm::Const(c), 0, 0, None).meaning(consts, vm);
            &&& after == (Vm { k: before.k.insert(k, after.k[k]), ..before })
            &&& forall|i: int|
                0 <= i < 16 ==> #[trigger] meaning::bit(after.k[k], i) == (before.z[a][i]
                    & meaning::words(consts[c as int])[i] != 0)
        }),
{
    broadcast use meaning::lemma_run;

    let held = p.meaning(consts, vm);
    let b = meaning::words(consts[c as int]);
    let m = Mvex {
        map: 2,
        pp: 1,
        w: 0,
        op: 0x27,
        reg: k,
        vvvv: a,
        rm: Rm::Const(c),
        k: 0,
        sss: 0,
        imm: None,
    };
    let after = p.mvex(2, 1, 0, 0x27, k, a, Rm::Const(c), 0, 0, None).meaning(consts, vm);
    assert(after == held.mvex(consts, m));
    let f = |i: int| meaning::selects(held, m.k, i) && Vm::found(m, held.z[a], b, i);
    assert(after.k[k] == meaning::mask_where(f, 16));
    assert forall|i: int| 0 <= i < 16 implies #[trigger] meaning::bit(after.k[k], i) == (
    held.z[a][i] & b[i] != 0) by {
        meaning::lemma_mask_where(f, 16, i);
    }
}

/// The same, the scratch mask saved first.
proof fn lemma_test(p: Prog, consts: Seq<Seq<u8>>, vm: Vm, k: u8, a: u8, c: usize)
    requires
        c < consts.len(),
    ensures
        ({
            let before = p.meaning(consts, vm);
            let after = p.step(Step::K).mvex(2, 1, 0, 0x27, k, a, Rm::Const(c), 0, 0, None).meaning(
                consts,
                vm,
            );
            &&& after == (Vm {
                k: before.k.insert(k, after.k[k]),
                gp: (None, before.gp.1),
                ..before
            })
            &&& forall|i: int|
                0 <= i < 16 ==> #[trigger] meaning::bit(after.k[k], i) == (before.z[a][i]
                    & meaning::words(consts[c as int])[i] != 0)
        }),
{
    broadcast use meaning::lemma_run;

    lemma_tested(p.step(Step::K), consts, vm, k, a, c);
}

/// A masked vpermd.
proof fn lemma_pick(p: Prog, consts: Seq<Seq<u8>>, vm: Vm, d: u8, a: u8, b: u8, k: u8)
    ensures
        ({
            let before = p.meaning(consts, vm);
            let after = p.vpermd(d, a, Rm::Reg(b), k).meaning(consts, vm);
            &&& meaning::put(before, after, d)
            &&& forall|i: int|
                0 <= i < 16 ==> #[trigger] after.z[d][i] == (if meaning::selects(before, k, i) {
                    before.z[b][before.z[a][i] as int % 16]
                } else {
                    before.z[d][i]
                })
        }),
{
    broadcast use meaning::lemma_run;

    let before = p.meaning(consts, vm);
    let after = p.vpermd(d, a, Rm::Reg(b), k).meaning(consts, vm);
    assert(after.z =~= before.z.insert(d, after.z[d]));
}

/// The lanes of two tables of `n` dwords that indices name.
pub open spec fn from_two(n: u32, first: Seq<u32>, second: Seq<u32>, at: Seq<u32>) -> Seq<u32> {
    Seq::new(
        16,
        |i: int|
            if at[i] / n % 2 == 0 {
                first[at[i] as int % n as int]
            } else {
                second[at[i] as int % n as int]
            },
    )
}

/// The qwords of two tables of `n` dwords that indices name, dword by dword.
pub open spec fn qwords_from_two(
    n: u32,
    first: Seq<u32>,
    second: Seq<u32>,
    at: Seq<u32>,
) -> Seq<u32> {
    Seq::new(
        16,
        |i: int|
            if at[i - i % 2] / (n / 2) % 2 == 0 {
                first[in_qword(n, at[i - i % 2], i)]
            } else {
                second[in_qword(n, at[i - i % 2], i)]
            },
    )
}

/// Indices cut to their table.
proof fn lemma_within(p: Prog, consts: Seq<Seq<u8>>, vm: Vm, ll: u8, t: u8, s: u8)
    requires
        p.meaning(consts, vm).wf(),
        p.consts.len() < 8,
        begins(p.within(ll, t, s).consts, consts),
        ll <= 2,
    ensures
        ({
            let before = p.meaning(consts, vm);
            let q = p.within(ll, t, s);
            let after = q.meaning(consts, vm);
            let n = permute::table_dwords(ll);
            &&& after == (Vm { z: after.z, ..before })
            &&& after.wf()
            &&& forall|x: u8| x != t ==> #[trigger] after.z[x] == before.z[x]
            &&& ll == 2 ==> after.z == before.z
            &&& ll == 2 ==> n == 16
            &&& ll != 2 ==> forall|i: int|
                0 <= i < 16 ==> (#[trigger] after.z[t][i]) as int % 16 == before.z[s][i] as int
                    % n as int
            &&& begins(p.consts, consts)
            &&& q.kscr == p.kscr && q.temps == p.temps && q.operands == p.operands
        }),
{
    let before = p.meaning(consts, vm);
    let n = permute::table_dwords(ll);
    if ll == 2 {
        assert(n == 16);
    } else {
        let low = (n - 1) as u32;
        let v = Seq::new(16, |i: int| low);
        lemma_held(p, v, consts);
        let c = p.index_of(prog::splat32(low));
        let p1 = p.constant(prog::splat32(low));
        assert(p1.meaning(consts, vm) == before);
        meaning::lemma_i0f(p1, consts, vm, 0xDB, t, s, Rm::Const(c), 0);
        let after = p.within(ll, t, s).meaning(consts, vm);
        assert forall|i: int| 0 <= i < 16 implies (#[trigger] after.z[t][i]) as int % 16
            == before.z[s][i] as int % n as int by {
            lemma_index(0, before.z[s][i]);
            assert(after.z[t][i] == before.z[s][i] & v[i]);
            assert(n == 8 || n == 4);
        }
    }
}

/// Two tables joined by the indices in `ix`, which are cut to the tables of
/// a narrow length in `t`.
spec fn joined(p: Prog, ll: u8, r: u8, t: u8, ix: u8, s1: u8, s2: u8) -> Prog {
    let n = permute::table_dwords(ll);
    let sel = p.index_of(prog::splat32(n));
    let at = if ll == 2 {
        ix
    } else {
        t
    };
    p
        .constant(prog::splat32(n))
        .step(Step::K)
        .mvex(2, 1, 0, 0x27, p.kscr, ix, Rm::Const(sel), 0, 0, None)
        .within(ll, t, ix)
        .vpermd(r, at, Rm::Reg(s1), 0)
        .vpermd(r, at, Rm::Reg(s2), p.kscr)
}

proof fn lemma_joined(
    p: Prog,
    consts: Seq<Seq<u8>>,
    vm: Vm,
    ll: u8,
    r: u8,
    t: u8,
    ix: u8,
    s1: u8,
    s2: u8,
)
    requires
        p.meaning(consts, vm).wf(),
        p.consts.len() < 7,
        begins(joined(p, ll, r, t, ix, s1, s2).consts, consts),
        r != ix && r != s1 && r != s2 && r != t,
        t != s1 && t != s2,
        ll <= 2,
        p.kscr != 0,
    ensures
        ({
            let before = p.meaning(consts, vm);
            let after = joined(p, ll, r, t, ix, s1, s2).meaning(consts, vm);
            &&& after.wf()
            &&& after.alu == before.alu
            &&& after.mem == before.mem
            &&& after.z[r] == from_two(
                permute::table_dwords(ll),
                before.z[s1],
                before.z[s2],
                before.z[ix],
            )
            &&& forall|x: u8| x != r && x != t ==> #[trigger] after.z[x] == before.z[x]
            &&& forall|k: u8| k != p.kscr ==> #[trigger] after.k[k] == before.k[k]
        }),
{
    let before = p.meaning(consts, vm);
    let n = permute::table_dwords(ll);
    let v = Seq::new(16, |i: int| n);
    let sel = p.index_of(prog::splat32(n));
    let p1 = p.constant(prog::splat32(n));
    let p2 = p1.step(Step::K).mvex(2, 1, 0, 0x27, p.kscr, ix, Rm::Const(sel), 0, 0, None);
    let p3 = p2.within(ll, t, ix);
    let at = if ll == 2 {
        ix
    } else {
        t
    };
    assert(p1.consts.len() <= p.consts.len() + 1);
    assert(p1.meaning(consts, vm) == before);
    assert(begins(p2.consts, consts)) by {
        if ll != 2 {
            lemma_held(p2, Seq::new(16, |i: int| (n - 1) as u32), consts);
        }
    }
    lemma_held(p, v, consts);
    lemma_test(p1, consts, vm, p.kscr, ix, sel);
    let m2 = p2.meaning(consts, vm);
    lemma_within(p2, consts, vm, ll, t, ix);
    let m3 = p3.meaning(consts, vm);
    let p4 = p3.vpermd(r, at, Rm::Reg(s1), 0);
    lemma_pick(p3, consts, vm, r, at, s1, 0);
    let m4 = p4.meaning(consts, vm);
    lemma_pick(p4, consts, vm, r, at, s2, p.kscr);
    let after = joined(p, ll, r, t, ix, s1, s2).meaning(consts, vm);
    let new = from_two(n, before.z[s1], before.z[s2], before.z[ix]);
    assert forall|i: int| 0 <= i < 16 implies #[trigger] after.z[r][i] == new[i] by {
        let x = before.z[ix][i];
        lemma_index(0, x);
        assert(n == 16 || n == 8 || n == 4);
        assert(meaning::bit(m2.k[p.kscr], i) == (x & v[i] != 0));
        if ll != 2 {
            assert(m3.z[t][i] as int % 16 == x as int % n as int);
        }
        assert(m3.z[at][i] as int % 16 == x as int % n as int);
        assert(m4.z[r][i] == before.z[s1][x as int % n as int]);
    }
    assert(after.z[r] =~= new);
}

/// The registers of a permute are ones the instruction names.
pub open spec fn all_named(insn: Decoded, ev: Ev) -> bool {
    meaning::named(insn, ev.reg) && meaning::named(insn, ev.vvvv) && meaning::named(insn, ev.rm)
}

/// What a permute of two tables computes.
pub open spec fn two_tables_of(m: u16, ev: Ev, vm: Vm) -> Seq<u32> {
    let at = if permute::index_in_dest(m) {
        vm.z[ev.reg]
    } else {
        vm.z[ev.vvvv]
    };
    let first = if permute::index_in_dest(m) {
        vm.z[ev.vvvv]
    } else {
        vm.z[ev.reg]
    };
    if permute::qword_tables(m) {
        qwords_from_two(permute::table_dwords(ev.ll), first, vm.z[ev.rm], at)
    } else {
        from_two(permute::table_dwords(ev.ll), first, vm.z[ev.rm], at)
    }
}

/// The indices of a permute of two tables, as dword indices.
spec fn indexed(p: Prog, m: u16, odd: usize, t: u8, idx: u8) -> Prog {
    if permute::qword_tables(m) {
        p.qidx_to_didx(odd, t, idx)
    } else {
        p
    }
}

/// The register with the indices, and the one with the first table.
spec fn index_reg(m: u16, ev: Ev) -> u8 {
    if permute::index_in_dest(m) {
        ev.reg
    } else {
        ev.vvvv
    }
}

spec fn table_reg(m: u16, ev: Ev) -> u8 {
    if permute::index_in_dest(m) {
        ev.vvvv
    } else {
        ev.reg
    }
}

spec fn dword_reg(m: u16, ev: Ev, t: u8) -> u8 {
    if permute::qword_tables(m) {
        t
    } else {
        index_reg(m, ev)
    }
}

/// A permute of two tables, before it is written.
spec fn two_joined(p: Prog, insn: Decoded, ev: Ev, odd: usize, r: u8, t: u8) -> Prog {
    let m = insn.head.mnemonic;
    joined(
        indexed(p, m, odd, t, index_reg(m, ev)),
        ev.ll,
        r,
        t,
        dword_reg(m, ev, t),
        table_reg(m, ev),
        ev.rm,
    )
}

proof fn lemma_two_joined(
    p: Prog,
    consts: Seq<Seq<u8>>,
    vm: Vm,
    insn: Decoded,
    ev: Ev,
    odd: usize,
    r: u8,
    t: u8,
    out: Prog,
)
    requires
        p.meaning(consts, vm) == vm,
        vm.wf(),
        p.consts.len() < 7,
        ev.ll <= 2,
        out == two_joined(p, insn, ev, odd, r, t),
        begins(out.consts, consts),
        odd < consts.len(),
        meaning::words(consts[odd as int]) == permute::lane_parity(),
        r != t,
        r != ev.reg && r != ev.vvvv && r != ev.rm,
        t != ev.reg && t != ev.vvvv && t != ev.rm,
        p.kscr != 0,
    ensures
        ({
            let after = out.meaning(consts, vm);
            &&& after.wf()
            &&& after.z[r] == two_tables_of(insn.head.mnemonic, ev, vm)
            &&& forall|x: u8| x != r && x != t ==> #[trigger] after.z[x] == vm.z[x]
            &&& forall|k: u8| k != p.kscr ==> #[trigger] after.k[k] == vm.k[k]
            &&& after.mem == vm.mem
        }),
{
    let m = insn.head.mnemonic;
    let idx = index_reg(m, ev);
    let p3 = indexed(p, m, odd, t, idx);
    if permute::qword_tables(m) {
        lemma_qidx(p, consts, vm, odd, t, idx, permute::table_dwords(ev.ll));
    }
    let before = p3.meaning(consts, vm);
    let ix = dword_reg(m, ev, t);
    let s1 = table_reg(m, ev);
    lemma_joined(p3, consts, vm, ev.ll, r, t, ix, s1, ev.rm);
    assert(before.z[s1] == vm.z[s1] && before.z[ev.rm] == vm.z[ev.rm]);
    let after = out.meaning(consts, vm);
    let new = two_tables_of(m, ev, vm);
    assert forall|i: int| 0 <= i < 16 implies #[trigger] after.z[r][i] == new[i] by {
        let x = before.z[ix][i];
        let n = permute::table_dwords(ev.ll);
        assert(x as int % n as int == x % n);
    }
    assert(after.z[r] =~= new);
}

/// What the sequence of a permute is.
proof fn lemma_outcome(insn: Decoded, ev: Ev, scratch: i32)
    requires
        meaning::between(insn, ev),
        permute::two_tables(insn.head.mnemonic),
    ensures
        ({
            let p0 = Prog::start(scratch, insn);
            let p1 = p0.temp().temp();
            let v = prog::dwords(permute::lane_parity());
            permute::permute_outcome(insn, ev, scratch) == Outcome::Thunk(
                two_joined(
                    p1.constant(v),
                    insn,
                    ev,
                    p1.index_of(v),
                    p0.next_temp(),
                    p0.temp().next_temp(),
                ).commit(ev.reg, p0.next_temp(), ev),
            )
        }),
{
    reveal(permute::permuted);
    meaning::lemma_start(scratch, insn, ev);
}

/// A result held in a temporary, written as AVX-512 writes it.
proof fn lemma_finish(q: Prog, vm: Vm, ev: Ev, r: u8, t: u8, new: Seq<u32>)
    requires
        ({
            let ran = q.meaning(q.consts, vm);
            &&& ran.wf()
            &&& ran.z[r] == new
            &&& forall|x: u8| x != r && x != t ==> #[trigger] ran.z[x] == vm.z[x]
            &&& forall|k: u8| k != q.kscr ==> #[trigger] ran.k[k] == vm.k[k]
            &&& ran.mem == vm.mem
        }),
        q.temps == seq![r, t],
        ev.reg != r && ev.reg != t,
        ev.ll <= 2,
        ev.w <= 1,
        q.kscr != 0,
        ev.aaa != q.kscr,
    ensures
        ({
            let fin = q.commit(ev.reg, r, ev);
            let after = fin.meaning(fin.consts, vm);
            &&& meaning::apart(vm, after, fin.temps, ev.reg, fin.kscr)
            &&& after.z[ev.reg] == meaning::written(ev, vm.z[ev.reg], new, vm.k[ev.aaa])
        }),
{
    let fin = q.commit(ev.reg, r, ev);
    meaning::lemma_commit_takes(q, ev.reg, r, ev);
    meaning::law_commit(q, q.consts, vm, ev.reg, r, ev);
    assert(fin.temps[0] == r && fin.temps[1] == t);
}

/// The two temporaries of a permute, and the constant of the lane numbers'
/// low bits.
proof fn lemma_prelude(insn: Decoded, ev: Ev, scratch: i32, vm: Vm, consts: Seq<Seq<u8>>)
    requires
        meaning::between(insn, ev),
        begins(
            Prog::start(scratch, insn).temp().temp().constant(
                prog::dwords(permute::lane_parity()),
            ).consts,
            consts,
        ),
    ensures
        ({
            let p0 = Prog::start(scratch, insn);
            let p1 = p0.temp().temp();
            let v = prog::dwords(permute::lane_parity());
            let p2 = p1.constant(v);
            &&& p2.meaning(consts, vm) == vm
            &&& p2.consts.len() <= 1
            &&& p2.kscr == p0.kscr
            &&& p2.temps == seq![p0.next_temp(), p0.temp().next_temp()]
            &&& p1.index_of(v) < consts.len()
            &&& meaning::words(consts[p1.index_of(v) as int]) == permute::lane_parity()
        }),
{
    let p0 = Prog::start(scratch, insn);
    let p1 = p0.temp().temp();
    meaning::lemma_start(scratch, insn, ev);
    meaning::lemma_temp(p0, consts, vm);
    meaning::lemma_temp(p0.temp(), consts, vm);
    assert(p0.meaning(consts, vm) == vm);
    lemma_held(p1, permute::lane_parity(), consts);
}

/// The permutes of two tables, vpermi2 and vpermt2, take the elements that the
/// indices name, and are written as AVX-512 writes them.
pub proof fn law_two_tables(insn: Decoded, ev: Ev, scratch: i32, vm: Vm)
    requires
        meaning::between(insn, ev),
        all_named(insn, ev),
        permute::two_tables(insn.head.mnemonic),
        vm.wf(),
    ensures
        ({
            let p = permute::permute_outcome(insn, ev, scratch)->Thunk_0;
            let after = p.meaning(p.consts, vm);
            &&& permute::permute_outcome(insn, ev, scratch) is Thunk
            &&& meaning::apart(vm, after, p.temps, ev.reg, p.kscr)
            &&& after.z[ev.reg] == meaning::written(
                ev,
                vm.z[ev.reg],
                two_tables_of(insn.head.mnemonic, ev, vm),
                vm.k[ev.aaa],
            )
        }),
{
    let m = insn.head.mnemonic;
    let p0 = Prog::start(scratch, insn);
    let v = prog::dwords(permute::lane_parity());
    meaning::lemma_start(scratch, insn, ev);
    let r = p0.next_temp();
    let t = p0.temp().next_temp();
    let p1 = p0.temp().temp();
    let p2 = p1.constant(v);
    let odd = p1.index_of(v);
    let q = two_joined(p2, insn, ev, odd, r, t);
    lemma_outcome(insn, ev, scratch);
    let p3 = indexed(p2, m, odd, t, index_reg(m, ev));
    assert(p3.consts == p2.consts && p3.kscr == p0.kscr && p3.temps == p2.temps);
    let p4 = p3.constant(prog::splat32(permute::table_dwords(ev.ll)));
    let p5 = p4.constant(prog::splat32((permute::table_dwords(ev.ll) - 1) as u32));
    assert(begins(p3.consts, p4.consts) && begins(p4.consts, p5.consts));
    assert(q.consts == (if ev.ll == 2 {
        p4.consts
    } else {
        p5.consts
    }) && q.temps == p2.temps && q.kscr == p0.kscr);
    assert(begins(p2.consts, q.consts));
    lemma_prelude(insn, ev, scratch, vm, q.consts);
    lemma_two_joined(p2, q.consts, vm, insn, ev, odd, r, t, q);
    lemma_finish(q, vm, ev, r, t, two_tables_of(m, ev, vm));
}

/// The qwords of a table of `n` dwords that indices name, dword by dword.
pub open spec fn qwords_at(n: u32, table: Seq<u32>, at: Seq<u32>) -> Seq<u32> {
    Seq::new(16, |i: int| table[in_qword(n, at[i - i % 2], i)])
}

/// What vpermq and vpermpd by a vector become, up to the commit.
spec fn qwords_permuted(p: Prog, ev: Ev, odd: usize, r: u8, t: u8) -> Prog {
    p.qidx_to_didx(odd, t, ev.vvvv).within(ev.ll, t, t).vpermd(r, t, Rm::Reg(ev.rm), 0)
}

proof fn lemma_qwords_outcome(insn: Decoded, ev: Ev, scratch: i32)
    requires
        meaning::between(insn, ev),
        insn.head.mnemonic == mn::VPERMQ || insn.head.mnemonic == mn::VPERMPD,
        !insn.ends_in_imm8(),
    ensures
        ({
            let p = Prog::start(scratch, insn);
            let r = p.next_temp();
            let t = p.temp().next_temp();
            let p1 = p.temp().temp();
            let v = prog::dwords(permute::lane_parity());
            permute::permute_outcome(insn, ev, scratch) == Outcome::Thunk(
                qwords_permuted(p1.constant(v), ev, p1.index_of(v), r, t).commit(ev.reg, r, ev),
            )
        }),
{
    reveal(permute::permuted);
}

/// vpermq and vpermpd by a vector take the qwords that the indices name, and
/// are written as AVX-512 writes them.
#[verifier::rlimit(40)]
pub proof fn law_permute_qwords(insn: Decoded, ev: Ev, scratch: i32, vm: Vm)
    requires
        meaning::between(insn, ev),
        all_named(insn, ev),
        insn.head.mnemonic == mn::VPERMQ || insn.head.mnemonic == mn::VPERMPD,
        !insn.ends_in_imm8(),
        vm.wf(),
    ensures
        ({
            let p = permute::permute_outcome(insn, ev, scratch)->Thunk_0;
            let after = p.meaning(p.consts, vm);
            &&& permute::permute_outcome(insn, ev, scratch) is Thunk
            &&& meaning::apart(vm, after, p.temps, ev.reg, p.kscr)
            &&& after.z[ev.reg] == meaning::written(
                ev,
                vm.z[ev.reg],
                qwords_at(permute::table_dwords(ev.ll), vm.z[ev.rm], vm.z[ev.vvvv]),
                vm.k[ev.aaa],
            )
        }),
{
    let p0 = Prog::start(scratch, insn);
    let v = prog::dwords(permute::lane_parity());
    meaning::lemma_start(scratch, insn, ev);
    let r = p0.next_temp();
    let t = p0.temp().next_temp();
    let p1 = p0.temp().temp();
    let p2 = p1.constant(v);
    let odd = p1.index_of(v);
    let n = permute::table_dwords(ev.ll);
    let p3 = p2.qidx_to_didx(odd, t, ev.vvvv);
    let p4 = p3.within(ev.ll, t, t);
    let q = p4.vpermd(r, t, Rm::Reg(ev.rm), 0);
    assert(q == qwords_permuted(p2, ev, odd, r, t));
    lemma_qwords_outcome(insn, ev, scratch);
    let consts = q.consts;
    assert(p3.consts == p2.consts && p3.kscr == p0.kscr && p3.temps == p2.temps);
    assert(begins(p2.consts, consts));
    lemma_prelude(insn, ev, scratch, vm, consts);
    lemma_qidx(p2, consts, vm, odd, t, ev.vvvv, n);
    lemma_within(p3, consts, vm, ev.ll, t, t);
    lemma_pick(p4, consts, vm, r, t, ev.rm, 0);
    let new = qwords_at(n, vm.z[ev.rm], vm.z[ev.vvvv]);
    let mid = p3.meaning(consts, vm);
    let cut = p4.meaning(consts, vm);
    let ran = q.meaning(consts, vm);
    assert forall|i: int| 0 <= i < 16 implies #[trigger] ran.z[r][i] == new[i] by {
        assert(mid.z[t][i] % n == in_qword(n, vm.z[ev.vvvv][i - i % 2], i));
        if ev.ll != 2 {
            assert(cut.z[t][i] as int % 16 == mid.z[t][i] as int % n as int);
        }
        assert(cut.z[t][i] as int % 16 == mid.z[t][i] as int % n as int);
        assert(n == 16 || n == 8 || n == 4);
    }
    assert(ran.z[r] =~= new);
    lemma_finish(q, vm, ev, r, t, new);
}

/// Where lane `i` of a permute within 128-bit blocks is, when `x` selects it:
/// one of four dwords, or by bit 1 one of two qwords.
pub open spec fn in_block(qwords: bool, x: u32, i: int) -> int {
    if qwords {
        4 * (i / 4) + 2 * (x / 2 % 2) + i % 2
    } else {
        4 * (i / 4) + x % 4
    }
}

/// What vpermilps and vpermilpd by a vector compute.
pub open spec fn within_blocks(qwords: bool, a: Seq<u32>, at: Seq<u32>) -> Seq<u32> {
    Seq::new(
        16,
        |i: int|
            a[in_block(
                qwords,
                if qwords {
                    at[i - i % 2]
                } else {
                    at[i]
                },
                i,
            )],
    )
}

spec fn block_bases() -> Seq<u32> {
    seq![0, 0, 0, 0, 4, 4, 4, 4, 8, 8, 8, 8, 12, 12, 12, 12]
}

spec fn qword_bases() -> Seq<u32> {
    seq![0, 1, 0, 1, 4, 5, 4, 5, 8, 9, 8, 9, 12, 13, 12, 13]
}

/// The dwords of vpermilps, before they are written.
spec fn dwords_in_blocks(p: Prog, ev: Ev, r: u8, t: u8) -> Prog {
    let three = p.index_of(prog::splat32(3));
    let q = p.constant(prog::splat32(3)).i0f(0xDB, t, ev.rm, Rm::Const(three), 0, 0);
    let base = q.index_of(prog::dwords(block_bases()));
    q
        .constant(prog::dwords(block_bases()))
        .i0f(0xFE, t, t, Rm::Const(base), 0, 0)
        .vpermd(r, t, Rm::Reg(ev.vvvv), 0)
}

/// The dwords of vpermilpd, before they are written.
spec fn qwords_in_blocks(p: Prog, ev: Ev, r: u8, t: u8) -> Prog {
    let q = p.vpshufd(t, Rm::Reg(ev.rm), 0xa0, 0).shift_imm(2, t, Rm::Reg(t), 1, 0);
    let one = q.index_of(prog::splat32(1));
    let q = q
        .constant(prog::splat32(1))
        .i0f(0xDB, t, t, Rm::Const(one), 0, 0)
        .shift_imm(6, t, Rm::Reg(t), 1, 0);
    let base = q.index_of(prog::dwords(qword_bases()));
    q
        .constant(prog::dwords(qword_bases()))
        .i0f(0xFE, t, t, Rm::Const(base), 0, 0)
        .vpermd(r, t, Rm::Reg(ev.vvvv), 0)
}

/// The dwords that the low bits of the indices name, before they are written.
spec fn low_lanes(p: Prog, ev: Ev, r: u8, t: u8, low: u32) -> Prog {
    let c = p.index_of(prog::splat32(low));
    p.constant(prog::splat32(low)).i0f(0xDB, t, ev.vvvv, Rm::Const(c), 0, 0).vpermd(
        r,
        t,
        Rm::Reg(ev.rm),
        0,
    )
}

/// Whether a permute has come to `new` in `r`, with nothing else but `t`
/// changed.
spec fn come_to(before: Vm, after: Vm, r: u8, t: u8, new: Seq<u32>) -> bool {
    &&& after.wf()
    &&& after.z[r] == new
    &&& forall|x: u8| x != r && x != t ==> #[trigger] after.z[x] == before.z[x]
    &&& after.k == before.k
    &&& after.mem == before.mem
}

/// The selectors of vpermilps, as dword indices.
proof fn lemma_selectors(
    p: Prog,
    consts: Seq<Seq<u8>>,
    vm: Vm,
    ev: Ev,
    t: u8,
    three: usize,
    base: usize,
)
    requires
        p.meaning(consts, vm).wf(),
        three < consts.len(),
        base < consts.len(),
        meaning::words(consts[three as int]) == Seq::new(16, |i: int| 3u32),
        meaning::words(consts[base as int]) == block_bases(),
        t != ev.rm,
    ensures
        ({
            let before = p.meaning(consts, vm);
            let after = p.i0f(0xDB, t, ev.rm, Rm::Const(three), 0, 0).i0f(
                0xFE,
                t,
                t,
                Rm::Const(base),
                0,
                0,
            ).meaning(consts, vm);
            &&& meaning::put(before, after, t)
            &&& forall|i: int|
                0 <= i < 16 ==> #[trigger] after.z[t][i] == in_block(false, before.z[ev.rm][i], i)
        }),
{
    let before = p.meaning(consts, vm);
    let p4 = p.i0f(0xDB, t, ev.rm, Rm::Const(three), 0, 0);
    meaning::lemma_i0f(p, consts, vm, 0xDB, t, ev.rm, Rm::Const(three), 0);
    meaning::lemma_i0f(p4, consts, vm, 0xFE, t, t, Rm::Const(base), 0);
    let after = p4.i0f(0xFE, t, t, Rm::Const(base), 0, 0).meaning(consts, vm);
    assert(after.z =~= before.z.insert(t, after.z[t]));
    assert forall|i: int| 0 <= i < 16 implies #[trigger] after.z[t][i] == in_block(
        false,
        before.z[ev.rm][i],
        i,
    ) by {
        let x = before.z[ev.rm][i];
        lemma_index(0, x);
        assert(block_bases()[i] == 4 * (i / 4));
    }
}

/// The dwords picked by the selectors of vpermilps.
proof fn lemma_select_pick(
    p: Prog,
    consts: Seq<Seq<u8>>,
    vm: Vm,
    ev: Ev,
    r: u8,
    t: u8,
    three: usize,
    base: usize,
)
    requires
        p.meaning(consts, vm) == vm,
        vm.wf(),
        three < consts.len(),
        base < consts.len(),
        meaning::words(consts[three as int]) == Seq::new(16, |i: int| 3u32),
        meaning::words(consts[base as int]) == block_bases(),
        r != t,
        r != ev.vvvv && t != ev.vvvv,
        t != ev.rm,
    ensures
        come_to(
            vm,
            p.i0f(0xDB, t, ev.rm, Rm::Const(three), 0, 0).i0f(
                0xFE,
                t,
                t,
                Rm::Const(base),
                0,
                0,
            ).vpermd(r, t, Rm::Reg(ev.vvvv), 0).meaning(consts, vm),
            r,
            t,
            within_blocks(false, vm.z[ev.vvvv], vm.z[ev.rm]),
        ),
{
    let p6 = p.i0f(0xDB, t, ev.rm, Rm::Const(three), 0, 0).i0f(
        0xFE,
        t,
        t,
        Rm::Const(base),
        0,
        0,
    );
    lemma_selectors(p, consts, vm, ev, t, three, base);
    let m6 = p6.meaning(consts, vm);
    lemma_pick(p6, consts, vm, r, t, ev.vvvv, 0);
    let new = within_blocks(false, vm.z[ev.vvvv], vm.z[ev.rm]);
    let ran = p6.vpermd(r, t, Rm::Reg(ev.vvvv), 0).meaning(consts, vm);
    assert forall|i: int| 0 <= i < 16 implies #[trigger] ran.z[r][i] == new[i] by {
        assert(m6.z[t][i] == in_block(false, vm.z[ev.rm][i], i));
    }
    assert(ran.z[r] =~= new);
}

proof fn lemma_dwords_in_blocks(
    p: Prog,
    consts: Seq<Seq<u8>>,
    vm: Vm,
    ev: Ev,
    r: u8,
    t: u8,
    out: Prog,
)
    requires
        p.meaning(consts, vm) == vm,
        vm.wf(),
        p.consts.len() < 6,
        out == dwords_in_blocks(p, ev, r, t),
        begins(out.consts, consts),
        r != t,
        r != ev.vvvv && t != ev.vvvv,
        t != ev.rm,
    ensures
        come_to(
            vm,
            out.meaning(consts, vm),
            r,
            t,
            within_blocks(false, vm.z[ev.vvvv], vm.z[ev.rm]),
        ),
        begins(p.consts, consts),
        out.temps == p.temps,
        out.kscr == p.kscr,
{
    let threes = Seq::new(16, |i: int| 3u32);
    let three = p.index_of(prog::splat32(3));
    let p3 = p.constant(prog::splat32(3));
    let p4 = p3.i0f(0xDB, t, ev.rm, Rm::Const(three), 0, 0);
    let base = p4.index_of(prog::dwords(block_bases()));
    let p5 = p4.constant(prog::dwords(block_bases()));
    assert(p4.consts == p3.consts);
    assert(p3.consts.len() <= p.consts.len() + 1);
    lemma_held(p4, block_bases(), consts);
    lemma_held(p, threes, consts);
    assert(p3.meaning(consts, vm) == vm);
    let same = p3.i0f(0xDB, t, ev.rm, Rm::Const(three), 0, 0).i0f(
        0xFE,
        t,
        t,
        Rm::Const(base),
        0,
        0,
    ).vpermd(r, t, Rm::Reg(ev.vvvv), 0);
    assert(out.steps == same.steps);
    lemma_select_pick(p3, consts, vm, ev, r, t, three, base);
}

/// vpermilps by a vector takes, within each 128-bit block, the dwords that
/// the selectors name.
pub proof fn law_permute_in_blocks(insn: Decoded, ev: Ev, scratch: i32, vm: Vm)
    requires
        meaning::between(insn, ev),
        all_named(insn, ev),
        insn.head.mnemonic == mn::VPERMILPS,
        vm.wf(),
    ensures
        ({
            let p = permute::permute_outcome(insn, ev, scratch)->Thunk_0;
            let after = p.meaning(p.consts, vm);
            &&& permute::permute_outcome(insn, ev, scratch) is Thunk
            &&& meaning::apart(vm, after, p.temps, ev.reg, p.kscr)
            &&& after.z[ev.reg] == meaning::written(
                ev,
                vm.z[ev.reg],
                within_blocks(false, vm.z[ev.vvvv], vm.z[ev.rm]),
                vm.k[ev.aaa],
            )
        }),
{
    let p0 = Prog::start(scratch, insn);
    let v = prog::dwords(permute::lane_parity());
    meaning::lemma_start(scratch, insn, ev);
    let r = p0.next_temp();
    let t = p0.temp().next_temp();
    let p1 = p0.temp().temp();
    let p2 = p1.constant(v);
    let q = dwords_in_blocks(p2, ev, r, t);
    assert(permute::permute_outcome(insn, ev, scratch) == Outcome::Thunk(
        q.commit(ev.reg, r, ev),
    )) by {
        reveal(permute::permuted);
    }
    lemma_grows(p2, ev, r, t);
    lemma_prelude(insn, ev, scratch, vm, q.consts);
    lemma_dwords_in_blocks(p2, q.consts, vm, ev, r, t, q);
    lemma_finish(q, vm, ev, r, t, within_blocks(false, vm.z[ev.vvvv], vm.z[ev.rm]));
}

/// The selectors of vpermilpd, before their blocks are added: twice bit 1.
proof fn lemma_halves(p: Prog, consts: Seq<Seq<u8>>, vm: Vm, t: u8, s: u8, one: usize)
    requires
        p.meaning(consts, vm).wf(),
        one < consts.len(),
        meaning::words(consts[one as int]) == Seq::new(16, |i: int| 1u32),
        t != s,
    ensures
        ({
            let before = p.meaning(consts, vm);
            let after = p.vpshufd(t, Rm::Reg(s), 0xa0, 0).shift_imm(2, t, Rm::Reg(t), 1, 0).i0f(
                0xDB,
                t,
                t,
                Rm::Const(one),
                0,
                0,
            ).shift_imm(6, t, Rm::Reg(t), 1, 0).meaning(consts, vm);
            &&& meaning::put(before, after, t)
            &&& forall|i: int|
                0 <= i < 16 ==> #[trigger] after.z[t][i] == 2 * (before.z[s][i - i % 2] / 2 % 2)
        }),
{
    let before = p.meaning(consts, vm);
    let p1 = p.vpshufd(t, Rm::Reg(s), 0xa0, 0);
    meaning::lemma_vpshufd(p, consts, vm, t, s, 0xa0, 0);
    let m1 = p1.meaning(consts, vm);
    let p2 = p1.shift_imm(2, t, Rm::Reg(t), 1, 0);
    meaning::lemma_shift_imm(p1, consts, vm, 2, t, t, 1, 0);
    let m2 = p2.meaning(consts, vm);
    let p3 = p2.i0f(0xDB, t, t, Rm::Const(one), 0, 0);
    meaning::lemma_i0f(p2, consts, vm, 0xDB, t, t, Rm::Const(one), 0);
    let m3 = p3.meaning(consts, vm);
    meaning::lemma_shift_imm(p3, consts, vm, 6, t, t, 1, 0);
    let after = p3.shift_imm(6, t, Rm::Reg(t), 1, 0).meaning(consts, vm);
    assert(after.z =~= before.z.insert(t, after.z[t]));
    assert forall|i: int| 0 <= i < 16 implies #[trigger] after.z[t][i] == 2 * (before.z[s][i - i % 2]
        / 2 % 2) by {
        let x = before.z[s][i - i % 2];
        meaning::lemma_fields((i % 4) as u8, 0);
        assert(m1.z[t][i] == x);
        lemma_index(0, x);
        assert(m2.z[t][i] == x / 2);
        lemma_index(0, (x / 2) as u32);
        assert(m3.z[t][i] == (x / 2) as u32 & 1);
    }
}

/// The blocks added to the selectors of vpermilpd.
proof fn lemma_based(p: Prog, consts: Seq<Seq<u8>>, vm: Vm, t: u8, base: usize, sel: Seq<u32>)
    requires
        p.meaning(consts, vm).wf(),
        base < consts.len(),
        meaning::words(consts[base as int]) == qword_bases(),
        forall|i: int|
            0 <= i < 16 ==> #[trigger] p.meaning(consts, vm).z[t][i] == 2 * (sel[i - i % 2] / 2
                % 2),
    ensures
        ({
            let before = p.meaning(consts, vm);
            let after = p.i0f(0xFE, t, t, Rm::Const(base), 0, 0).meaning(consts, vm);
            &&& meaning::put(before, after, t)
            &&& forall|i: int|
                0 <= i < 16 ==> #[trigger] after.z[t][i] == in_block(true, sel[i - i % 2], i)
        }),
{
    let before = p.meaning(consts, vm);
    meaning::lemma_i0f(p, consts, vm, 0xFE, t, t, Rm::Const(base), 0);
    let after = p.i0f(0xFE, t, t, Rm::Const(base), 0, 0).meaning(consts, vm);
    assert forall|i: int| 0 <= i < 16 implies #[trigger] after.z[t][i] == in_block(
        true,
        sel[i - i % 2],
        i,
    ) by {
        assert(qword_bases()[i] == 4 * (i / 4) + i % 2);
        assert(before.z[t][i] == 2 * (sel[i - i % 2] / 2 % 2));
    }
}

/// The qwords picked by selectors whose blocks are still to be added.
proof fn lemma_block_pick(
    p: Prog,
    consts: Seq<Seq<u8>>,
    vm: Vm,
    r: u8,
    t: u8,
    a: u8,
    base: usize,
    sel: Seq<u32>,
)
    requires
        p.meaning(consts, vm).wf(),
        base < consts.len(),
        meaning::words(consts[base as int]) == qword_bases(),
        forall|i: int|
            0 <= i < 16 ==> #[trigger] p.meaning(consts, vm).z[t][i] == 2 * (sel[i - i % 2] / 2
                % 2),
        r != t,
        r != a && t != a,
    ensures
        come_to(
            p.meaning(consts, vm),
            p.i0f(0xFE, t, t, Rm::Const(base), 0, 0).vpermd(r, t, Rm::Reg(a), 0).meaning(
                consts,
                vm,
            ),
            r,
            t,
            within_blocks(true, p.meaning(consts, vm).z[a], sel),
        ),
{
    let before = p.meaning(consts, vm);
    let p5 = p.i0f(0xFE, t, t, Rm::Const(base), 0, 0);
    lemma_based(p, consts, vm, t, base, sel);
    let m5 = p5.meaning(consts, vm);
    lemma_pick(p5, consts, vm, r, t, a, 0);
    let new = within_blocks(true, before.z[a], sel);
    let ran = p5.vpermd(r, t, Rm::Reg(a), 0).meaning(consts, vm);
    assert forall|i: int| 0 <= i < 16 implies #[trigger] ran.z[r][i] == new[i] by {
        assert(m5.z[t][i] == in_block(true, sel[i - i % 2], i));
    }
    assert(ran.z[r] =~= new);
}

proof fn lemma_qwords_in_blocks(
    p: Prog,
    consts: Seq<Seq<u8>>,
    vm: Vm,
    ev: Ev,
    r: u8,
    t: u8,
    out: Prog,
)
    requires
        p.meaning(consts, vm) == vm,
        vm.wf(),
        p.consts.len() < 6,
        out == qwords_in_blocks(p, ev, r, t),
        begins(out.consts, consts),
        r != t,
        r != ev.vvvv && t != ev.vvvv,
        t != ev.rm,
    ensures
        come_to(
            vm,
            out.meaning(consts, vm),
            r,
            t,
            within_blocks(true, vm.z[ev.vvvv], vm.z[ev.rm]),
        ),
        out.temps == p.temps,
        out.kscr == p.kscr,
{
    let ones = Seq::new(16, |i: int| 1u32);
    let q = p.vpshufd(t, Rm::Reg(ev.rm), 0xa0, 0).shift_imm(2, t, Rm::Reg(t), 1, 0);
    let one = q.index_of(prog::splat32(1));
    let q2 = q.constant(prog::splat32(1));
    let q3 = q2.i0f(0xDB, t, t, Rm::Const(one), 0, 0).shift_imm(6, t, Rm::Reg(t), 1, 0);
    let base = q3.index_of(prog::dwords(qword_bases()));
    let q4 = q3.constant(prog::dwords(qword_bases()));
    assert(q.consts == p.consts && q3.consts == q2.consts);
    assert(q2.consts.len() <= p.consts.len() + 1);
    lemma_held(q3, qword_bases(), consts);
    lemma_held(q, ones, consts);
    let same = q.i0f(0xDB, t, t, Rm::Const(one), 0, 0).shift_imm(6, t, Rm::Reg(t), 1, 0);
    assert(q3.steps == same.steps);
    lemma_halves(p, consts, vm, t, ev.rm, one);
    let m3 = q3.meaning(consts, vm);
    assert(m3 == same.meaning(consts, vm));
    assert(q4.meaning(consts, vm) == m3);
    lemma_block_pick(q4, consts, vm, r, t, ev.vvvv, base, vm.z[ev.rm]);
}

/// vpermilpd by a vector takes, within each 128-bit block, the qwords that the
/// selectors' bit 1 names, and is written as AVX-512 writes it.
pub proof fn law_permute_qwords_in_blocks(insn: Decoded, ev: Ev, scratch: i32, vm: Vm)
    requires
        meaning::between(insn, ev),
        all_named(insn, ev),
        insn.head.mnemonic == mn::VPERMILPD,
        !insn.ends_in_imm8(),
        vm.wf(),
    ensures
        ({
            let p = permute::permute_outcome(insn, ev, scratch)->Thunk_0;
            let after = p.meaning(p.consts, vm);
            &&& permute::permute_outcome(insn, ev, scratch) is Thunk
            &&& meaning::apart(vm, after, p.temps, ev.reg, p.kscr)
            &&& after.z[ev.reg] == meaning::written(
                ev,
                vm.z[ev.reg],
                within_blocks(true, vm.z[ev.vvvv], vm.z[ev.rm]),
                vm.k[ev.aaa],
            )
        }),
{
    let p0 = Prog::start(scratch, insn);
    let v = prog::dwords(permute::lane_parity());
    meaning::lemma_start(scratch, insn, ev);
    let r = p0.next_temp();
    let t = p0.temp().next_temp();
    let p1 = p0.temp().temp();
    let p2 = p1.constant(v);
    let q = qwords_in_blocks(p2, ev, r, t);
    assert(permute::permute_outcome(insn, ev, scratch) == Outcome::Thunk(
        q.commit(ev.reg, r, ev),
    )) by {
        reveal(permute::permuted);
    }
    lemma_grows(p2, ev, r, t);
    lemma_prelude(insn, ev, scratch, vm, q.consts);
    lemma_qwords_in_blocks(p2, q.consts, vm, ev, r, t, q);
    lemma_finish(q, vm, ev, r, t, within_blocks(true, vm.z[ev.vvvv], vm.z[ev.rm]));
}

proof fn lemma_low_lanes(
    p: Prog,
    consts: Seq<Seq<u8>>,
    vm: Vm,
    ev: Ev,
    r: u8,
    t: u8,
    out: Prog,
)
    requires
        p.meaning(consts, vm) == vm,
        vm.wf(),
        p.consts.len() < 6,
        out == low_lanes(p, ev, r, t, 7),
        begins(out.consts, consts),
        r != t,
        r != ev.rm && t != ev.rm,
        t != ev.vvvv,
    ensures
        come_to(
            vm,
            out.meaning(consts, vm),
            r,
            t,
            Seq::new(16, |i: int| vm.z[ev.rm][vm.z[ev.vvvv][i] as int % 8]),
        ),
        out.temps == p.temps,
        out.kscr == p.kscr,
{
    let sevens = Seq::new(16, |i: int| 7u32);
    let c = p.index_of(prog::splat32(7));
    let p3 = p.constant(prog::splat32(7));
    let p4 = p3.i0f(0xDB, t, ev.vvvv, Rm::Const(c), 0, 0);
    lemma_held(p, sevens, consts);
    assert(p3.meaning(consts, vm) == vm);
    meaning::lemma_i0f(p3, consts, vm, 0xDB, t, ev.vvvv, Rm::Const(c), 0);
    let m4 = p4.meaning(consts, vm);
    lemma_pick(p4, consts, vm, r, t, ev.rm, 0);
    let new = Seq::new(16, |i: int| vm.z[ev.rm][vm.z[ev.vvvv][i] as int % 8]);
    let ran = out.meaning(consts, vm);
    assert forall|i: int| 0 <= i < 16 implies #[trigger] ran.z[r][i] == new[i] by {
        let x = vm.z[ev.vvvv][i];
        lemma_index(0, x);
        assert(m4.z[t][i] == x % 8);
    }
    assert(ran.z[r] =~= new);
}

/// The 256-bit vpermd and vpermps take the dwords that the low three bits of
/// the indices name.
pub proof fn law_permute_low(insn: Decoded, ev: Ev, scratch: i32, vm: Vm)
    requires
        meaning::between(insn, ev),
        all_named(insn, ev),
        ev.ll == 1,
        insn.head.mnemonic == mn::VPERMD || insn.head.mnemonic == mn::VPERMPS,
        vm.wf(),
    ensures
        ({
            let p = permute::permute_outcome(insn, ev, scratch)->Thunk_0;
            let after = p.meaning(p.consts, vm);
            &&& permute::permute_outcome(insn, ev, scratch) is Thunk
            &&& meaning::apart(vm, after, p.temps, ev.reg, p.kscr)
            &&& after.z[ev.reg] == meaning::written(
                ev,
                vm.z[ev.reg],
                Seq::new(16, |i: int| vm.z[ev.rm][vm.z[ev.vvvv][i] as int % 8]),
                vm.k[ev.aaa],
            )
        }),
{
    let p0 = Prog::start(scratch, insn);
    let v = prog::dwords(permute::lane_parity());
    meaning::lemma_start(scratch, insn, ev);
    let r = p0.next_temp();
    let t = p0.temp().next_temp();
    let p1 = p0.temp().temp();
    let p2 = p1.constant(v);
    let q = low_lanes(p2, ev, r, t, 7);
    assert(permute::permute_outcome(insn, ev, scratch) == Outcome::Thunk(
        q.commit(ev.reg, r, ev),
    )) by {
        reveal(permute::permuted);
    }
    lemma_grows(p2, ev, r, t);
    lemma_prelude(insn, ev, scratch, vm, q.consts);
    lemma_low_lanes(p2, q.consts, vm, ev, r, t, q);
    lemma_finish(
        q,
        vm,
        ev,
        r,
        t,
        Seq::new(16, |i: int| vm.z[ev.rm][vm.z[ev.vvvv][i] as int % 8]),
    );
}

/// The sequences keep the constants they begin with.
proof fn lemma_grows(p: Prog, ev: Ev, r: u8, t: u8)
    ensures
        begins(p.consts, dwords_in_blocks(p, ev, r, t).consts),
        begins(p.consts, qwords_in_blocks(p, ev, r, t).consts),
        forall|low: u32| begins(p.consts, #[trigger] low_lanes(p, ev, r, t, low).consts),
{
}

} // verus!
