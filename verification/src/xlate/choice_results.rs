//! What the rewritten minimums, maximums and shifts by a count in a register
//! compute, in the model of [`crate::xlate::meaning`].
use crate::xlate::arith;
use crate::xlate::code::{MemOp, Mvex, Rm};
use crate::xlate::compare_results;
use crate::xlate::ev::Ev;
use crate::xlate::insn::Decoded;
use crate::xlate::lane_results;
use crate::xlate::meaning;
use crate::xlate::meaning::{Relation, Vm};
use crate::xlate::memory_results;
use crate::xlate::mnemonic as mn;
use crate::xlate::prog;
use crate::xlate::prog::{Prog, Step};
use vstd::prelude::*;

verus! {

/// Whether a minimum or a maximum takes its first source, when the first
/// compares with the second as `r`: not where either is no number, nor where
/// they are equal.
pub open spec fn first_taken(is_max: bool, r: Relation) -> bool {
    if is_max {
        r is Greater
    } else {
        r is Less
    }
}

/// The minimum or maximum of every element, as AVX-512 has it: the second
/// source where the two are equal or either is no number.
pub open spec fn chosen(is_max: bool, w: u8, a: Seq<u32>, b: Seq<u32>) -> Seq<u32> {
    Seq::new(
        16,
        |i: int|
            if first_taken(
                is_max,
                meaning::relation(
                    w,
                    meaning::element(a, w, lane_element(w, i)),
                    meaning::element(b, w, lane_element(w, i)),
                ),
            ) {
                a[i]
            } else {
                b[i]
            },
    )
}

/// The element that the dword `i` belongs to.
pub open spec fn lane_element(w: u8, i: int) -> int {
    if w == 0 {
        i
    } else {
        i / 2
    }
}

/// The pick leaves the minimum or maximum in its register, and changes the
/// scratch mask besides.
proof fn lemma_picks(
    p: Prog,
    consts: Seq<Seq<u8>>,
    vm: Vm,
    r: u8,
    s1: u8,
    s2: u8,
    is_max: bool,
    w: u8,
)
    requires
        p.meaning(consts, vm).wf(),
        w <= 1,
        p.kscr != 0,
        r != s1 && r != s2,
    ensures
        ({
            let before = p.meaning(consts, vm);
            let q = p.pick(r, s1, s2, is_max, w);
            let after = q.meaning(consts, vm);
            &&& meaning::only(before, after, r, p.kscr)
            &&& after.z[r] == chosen(is_max, w, before.z[s1], before.z[s2])
            &&& q.consts == p.consts && q.temps == p.temps && q.kscr == p.kscr
        }),
{
    broadcast use meaning::lemma_run;

    let before = p.meaning(consts, vm);
    let p1 = p.step(Step::K);
    let m1 = p1.meaning(consts, vm);
    assert(m1.z == before.z && m1.k == before.k && m1.ok == before.ok && m1.alu == before.alu);
    let p2 = p1.vmov(r, Rm::Reg(s2), 0, w);
    meaning::lemma_vmov(p1, consts, vm, r, Rm::Reg(s2), w);
    let m2 = p2.meaning(consts, vm);
    let p3 = p2.compare_either(p2.kscr, s1, s2, 1, is_max, 0, w);
    compare_results::lemma_either(p2, consts, vm, p2.kscr, s1, s2, 1, is_max, 0, w);
    let m3 = p3.meaning(consts, vm);
    let q = p3.vmov(r, Rm::Reg(s1), p3.kscr, w);
    let after = q.meaning(consts, vm);
    let new = chosen(is_max, w, before.z[s1], before.z[s2]);
    assert(after.z == m3.z.insert(
        r,
        meaning::merged(m3.z[r], m3.z[s1], p.kscr, m3.k[p.kscr], w),
    ));
    assert forall|i: int| 0 <= i < 16 implies #[trigger] after.z[r][i] == new[i] by {
        let j = lane_element(w, i);
        assert(meaning::bit(m3.k[p.kscr], j) == first_taken(
            is_max,
            compare_results::between(before, w, s1, s2, j),
        ));
    }
    assert(after.z[r] =~= new);
}

/// The packed minimums and maximums take the second source where either is no
/// number or the two are equal, as those of AVX-512 do, and write the result
/// as AVX-512 writes it.
pub proof fn law_minmax(insn: Decoded, ev: Ev, scratch: i32, vm: Vm)
    requires
        meaning::between(insn, ev),
        meaning::named(insn, ev.vvvv),
        meaning::named(insn, ev.rm),
        meaning::named(insn, ev.reg),
        vm.wf(),
    ensures
        ({
            let p = arith::minmax_outcome(insn, ev, scratch)->Thunk_0;
            let after = p.meaning(p.consts, vm);
            let is_max = insn.head.mnemonic == mn::VMAXPS || insn.head.mnemonic == mn::VMAXPD;
            &&& arith::minmax_outcome(insn, ev, scratch) is Thunk
            &&& meaning::apart(vm, after, p.temps, ev.reg, p.kscr)
            &&& after.z[ev.reg] == meaning::written(
                ev,
                vm.z[ev.reg],
                chosen(is_max, ev.w, vm.z[ev.vvvv], vm.z[ev.rm]),
                vm.k[ev.aaa],
            )
        }),
{
    let is_max = insn.head.mnemonic == mn::VMAXPS || insn.head.mnemonic == mn::VMAXPD;
    let fin = arith::minmax_outcome(insn, ev, scratch)->Thunk_0;
    let consts = fin.consts;
    let p0 = Prog::start(scratch, insn);
    meaning::lemma_start(scratch, insn, ev);
    assert(p0.meaning(consts, vm) == vm);
    let r = p0.next_temp();
    let p1 = p0.temp();
    meaning::lemma_temp(p0, consts, vm);
    let p2 = p1.pick(r, ev.vvvv, ev.rm, is_max, ev.w);
    lemma_picks(p1, consts, vm, r, ev.vvvv, ev.rm, is_max, ev.w);
    assert(fin == p2.commit(ev.reg, r, ev));
    meaning::law_commit(p2, consts, vm, ev.reg, r, ev);
    meaning::lemma_commit_takes(p2, ev.reg, r, ev);
    let mid = p2.meaning(consts, vm);
    let after = fin.meaning(consts, vm);
    assert(fin.temps == seq![r]);
    assert(fin.temps.contains(r)) by {
        assert(fin.temps[0] == r);
    }
}

/// The scalar minimums and maximums choose as the packed ones do in lane 0,
/// and write it as AVX-512 writes a scalar result.
pub proof fn law_scalar_minmax(insn: Decoded, ev: Ev, scratch: i32, vm: Vm)
    requires
        meaning::between(insn, ev),
        meaning::named(insn, ev.vvvv),
        meaning::named(insn, ev.rm),
        meaning::named(insn, ev.reg),
        ev.aaa == 0,
        vm.wf(),
    ensures
        ({
            let p = arith::scalar_minmax_outcome(insn, ev, scratch)->Thunk_0;
            let after = p.meaning(p.consts, vm);
            let is_max = insn.head.mnemonic == mn::VMAXSS || insn.head.mnemonic == mn::VMAXSD;
            &&& arith::scalar_minmax_outcome(insn, ev, scratch) is Thunk
            &&& meaning::apart(vm, after, p.temps, ev.reg, p.kscr)
            &&& after.z[ev.reg] == lane_results::scalar_written(
                ev,
                vm.z[ev.reg],
                vm.z[ev.vvvv],
                chosen(is_max, ev.w, vm.z[ev.vvvv], vm.z[ev.rm]),
                vm.k[ev.aaa],
            )
        }),
{
    broadcast use meaning::lemma_run;

    let is_max = insn.head.mnemonic == mn::VMAXSS || insn.head.mnemonic == mn::VMAXSD;
    let fin = arith::scalar_minmax_outcome(insn, ev, scratch)->Thunk_0;
    let consts = fin.consts;
    let d = ev.reg;
    let p0 = Prog::start(scratch, insn);
    meaning::lemma_start(scratch, insn, ev);
    assert(p0.meaning(consts, vm) == vm);
    let r = p0.next_temp();
    let p1 = p0.temp();
    meaning::lemma_temp(p0, consts, vm);
    let p2 = p1.pick(r, ev.vvvv, ev.rm, is_max, ev.w);
    lemma_picks(p1, consts, vm, r, ev.vvvv, ev.rm, is_max, ev.w);
    let mid = p2.meaning(consts, vm);
    let v = mid.z[r];
    meaning::lemma_mask_imm(p2, consts, vm, 1);
    let p3 = p2.mask_imm(1).vmov(d, Rm::Reg(r), p2.kscr, ev.w);
    let m3 = p3.meaning(consts, vm);
    assert(m3.z == mid.z.insert(d, meaning::merged(mid.z[d], v, p2.kscr, 1, ev.w)));
    lemma_results_rest(p3, consts, vm, d, ev, vm, v, p0.kscr);
    let after = fin.meaning(consts, vm);
    assert(fin == p3.scalar_rest(d, ev.vvvv, ev.w));
    assert(fin.temps == seq![r]);
    assert(fin.temps.contains(r)) by {
        assert(fin.temps[0] == r);
    }
}

/// Lane 0 written, the rest of a scalar result follows.
proof fn lemma_results_rest(
    p: Prog,
    consts: Seq<Seq<u8>>,
    vm: Vm,
    d: u8,
    ev: Ev,
    start: Vm,
    v: Seq<u32>,
    k: u8,
)
    requires
        p.meaning(consts, vm).wf(),
        ev.w <= 1,
        ev.aaa == 0,
        p.kscr == k,
        k != 0,
        p.meaning(consts, vm).z[ev.vvvv] == (if ev.vvvv == d {
            meaning::merged(start.z[d], v, k, 1, ev.w)
        } else {
            start.z[ev.vvvv]
        }),
        p.meaning(consts, vm).z[d] == meaning::merged(start.z[d], v, k, 1, ev.w),
    ensures
        ({
            let q = p.scalar_rest(d, ev.vvvv, ev.w);
            let after = q.meaning(consts, vm);
            &&& meaning::only(p.meaning(consts, vm), after, d, k)
            &&& after.z[d] == lane_results::scalar_written(
                ev,
                start.z[d],
                start.z[ev.vvvv],
                v,
                start.k[ev.aaa],
            )
            &&& q.consts == p.consts && q.temps == p.temps && q.kscr == p.kscr
        }),
{
    lane_results::lemma_scalar_rest(p, consts, vm, d, ev.vvvv, ev.w);
    let q = p.scalar_rest(d, ev.vvvv, ev.w);
    let after = q.meaning(consts, vm);
    let new = lane_results::scalar_written(
        ev,
        start.z[d],
        start.z[ev.vvvv],
        v,
        start.k[ev.aaa],
    );
    assert forall|i: int| 0 <= i < 16 implies #[trigger] after.z[d][i] == new[i] by {
        meaning::lemma_lanes(lane_element(ev.w, i) as u16);
    }
    assert(after.z[d] =~= new);
}

/// What a shift of every dword by the count in the low qword of a register
/// computes.
pub open spec fn shifted_all(m: u16, a: Seq<u32>, n: int) -> Seq<u32> {
    Seq::new(
        16,
        |i: int|
            meaning::shifted_by(
                arith::variable_shift(m),
                a[i],
                if n < 32 {
                    n as u32
                } else {
                    32
                },
            ),
    )
}

/// The count whose dwords are in `t` and in `r` made one dword, and every
/// dword shifted by it.
spec fn counted(p: Prog, op: u8, r: u8, a: u8, t: u8) -> Prog {
    let c = p.index_of(prog::splat32(arith::COUNT_ALL));
    p
        .constant(prog::splat32(arith::COUNT_ALL))
        .step(Step::K)
        .mvex(2, 1, 0, 0x27, p.kscr, r, Rm::Reg(r), 0, 0, None)
        .vmov(t, Rm::Const(c), p.kscr, 0)
        .i38(op, r, a, Rm::Reg(t), 0)
}

/// A mask set where a vector has a bit.
proof fn lemma_test_self(p: Prog, consts: Seq<Seq<u8>>, vm: Vm, k: u8, a: u8)
    ensures
        ({
            let before = p.meaning(consts, vm);
            let after = p.mvex(2, 1, 0, 0x27, k, a, Rm::Reg(a), 0, 0, None).meaning(consts, vm);
            &&& compare_results::marked(before, after, k)
            &&& forall|i: int|
                0 <= i < 16 ==> #[trigger] meaning::bit(after.k[k], i) == (before.z[a][i] != 0)
        }),
{
    broadcast use meaning::lemma_run;

    let before = p.meaning(consts, vm);
    let m = Mvex {
        map: 2,
        pp: 1,
        w: 0,
        op: 0x27,
        reg: k,
        vvvv: a,
        rm: Rm::Reg(a),
        k: 0,
        sss: 0,
        imm: None,
    };
    let after = p.mvex(2, 1, 0, 0x27, k, a, Rm::Reg(a), 0, 0, None).meaning(consts, vm);
    assert(after == before.mvex(consts, m));
    let f = |i: int| meaning::selects(before, m.k, i) && Vm::found(m, before.z[a], before.z[a], i);
    assert(after.k[k] == meaning::mask_where(f, 16));
    assert forall|i: int| 0 <= i < 16 implies #[trigger] meaning::bit(after.k[k], i) == (
    before.z[a][i] != 0) by {
        meaning::lemma_mask_where(f, 16, i);
        lemma_same_bits(before.z[a][i]);
    }
}

/// A dword has a bit in common with itself unless it is zero.
proof fn lemma_same_bits(x: u32)
    ensures
        (x & x != 0) == (x != 0),
{
    meaning::lemma_shortcuts(0, x, 0, 0);
}

proof fn lemma_counted(
    p: Prog,
    consts: Seq<Seq<u8>>,
    vm: Vm,
    m: u16,
    r: u8,
    a: u8,
    t: u8,
    count: int,
    out: Prog,
)
    requires
        p.meaning(consts, vm).wf(),
        p.consts == Seq::<Seq<u8>>::empty(),
        out == counted(p, arith::variable_shift(m), r, a, t),
        consts == out.consts,
        r != t,
        r != a && t != a,
        p.kscr != 0,
        0 <= count,
        forall|i: int|
            0 <= i < 16 ==> #[trigger] p.meaning(consts, vm).z[t][i] == count % 0x1_0000_0000,
        forall|i: int|
            0 <= i < 16 ==> (#[trigger] p.meaning(consts, vm).z[r][i] == 0) == (count
                < 0x1_0000_0000),
    ensures
        ({
            let before = p.meaning(consts, vm);
            let after = out.meaning(consts, vm);
            &&& after.wf()
            &&& after.z[r] == shifted_all(m, before.z[a], count)
            &&& forall|x: u8| x != r && x != t ==> #[trigger] after.z[x] == before.z[x]
            &&& forall|k: u8| k != p.kscr ==> #[trigger] after.k[k] == before.k[k]
            &&& after.mem == before.mem && after.alu == before.alu
            &&& out.temps == p.temps && out.kscr == p.kscr
        }),
{
    broadcast use meaning::lemma_run;

    let before = p.meaning(consts, vm);
    let op = arith::variable_shift(m);
    let all = Seq::new(16, |i: int| arith::COUNT_ALL);
    meaning::lemma_words(all);
    let c = p.index_of(prog::splat32(arith::COUNT_ALL));
    let p1 = p.constant(prog::splat32(arith::COUNT_ALL));
    assert(c == 0 && p1.consts =~= seq![prog::splat32(arith::COUNT_ALL)]);
    assert(p1.meaning(consts, vm) == before);
    let p2 = p1.step(Step::K);
    let p3 = p2.mvex(2, 1, 0, 0x27, p.kscr, r, Rm::Reg(r), 0, 0, None);
    lemma_test_self(p2, consts, vm, p.kscr, r);
    let m3 = p3.meaning(consts, vm);
    let p4 = p3.vmov(t, Rm::Const(c), p.kscr, 0);
    let m4 = p4.meaning(consts, vm);
    assert(m3.operand(consts, Rm::Const(c)) == Some(all));
    assert(m4.z == m3.z.insert(t, meaning::merged(m3.z[t], all, p.kscr, m3.k[p.kscr], 0)));
    lemma_variable_shift(p4, consts, vm, op, r, a, t);
    let after = out.meaning(consts, vm);
    let new = shifted_all(m, before.z[a], count);
    assert forall|i: int| 0 <= i < 16 implies #[trigger] after.z[r][i] == new[i] by {
        assert(meaning::bit(m3.k[p.kscr], i) == (before.z[r][i] != 0));
        assert(m4.z[t][i] == (if count < 0x1_0000_0000 {
            count
        } else {
            0xffff_ffff
        }));
        assert(m4.z[a] == before.z[a]);
    }
    assert(after.z[r] =~= new);
}

/// The result of such a shift written.
proof fn lemma_count_written(q: Prog, vm: Vm, ev: Ev, r: u8, t: u8, new: Seq<u32>)
    requires
        ({
            let ran = q.meaning(q.consts, vm);
            &&& ran.wf()
            &&& ran.z[r] == new
            &&& forall|x: u8| x != r && x != t ==> #[trigger] ran.z[x] == vm.z[x]
            &&& forall|k: u8| k != q.kscr ==> #[trigger] ran.k[k] == vm.k[k]
            &&& ran.mem == vm.mem
        }),
        q.temps == seq![t, r],
        ev.reg != r && ev.reg != t,
        ev.ll <= 2,
        ev.w <= 1,
        q.kscr != 0,
        ev.aaa != q.kscr,
    ensures
        ({
            let fin = q.commit(ev.reg, r, ev);
            let after = fin.meaning(fin.consts, vm);
            &&& meaning::apart(vm, after, fin.temps, ev.reg, fin.kscr)
            &&& after.z[ev.reg] == meaning::written(ev, vm.z[ev.reg], new, vm.k[ev.aaa])
        }),
{
    let fin = q.commit(ev.reg, r, ev);
    meaning::lemma_commit_takes(q, ev.reg, r, ev);
    meaning::law_commit(q, q.consts, vm, ev.reg, r, ev);
    assert(fin.temps[0] == t && fin.temps[1] == r);
}

/// The shifts by the count in a register shift every dword by it, and leave
/// nothing or the sign from 32 on.
pub proof fn law_shift_by_register(insn: Decoded, ev: Ev, scratch: i32, vm: Vm)
    requires
        meaning::between(insn, ev),
        meaning::named(insn, ev.vvvv),
        meaning::named(insn, ev.rm),
        meaning::named(insn, ev.reg),
        vm.wf(),
    ensures
        ({
            let p = arith::shift_by_xmm_outcome(insn, ev, scratch)->Thunk_0;
            let after = p.meaning(p.consts, vm);
            &&& arith::shift_by_xmm_outcome(insn, ev, scratch) is Thunk
            &&& meaning::apart(vm, after, p.temps, ev.reg, p.kscr)
            &&& after.z[ev.reg] == meaning::written(
                ev,
                vm.z[ev.reg],
                shifted_all(
                    insn.head.mnemonic,
                    vm.z[ev.vvvv],
                    meaning::element(vm.z[ev.rm], 1, 0),
                ),
                vm.k[ev.aaa],
            )
        }),
{
    let fin = arith::shift_by_xmm_outcome(insn, ev, scratch)->Thunk_0;
    let op = arith::variable_shift(insn.head.mnemonic);
    let p0 = Prog::start(scratch, insn);
    meaning::lemma_start(scratch, insn, ev);
    let t = p0.next_temp();
    let r = p0.temp().next_temp();
    let p1 = p0.temp().temp();
    let p2 = p1.vpermf32x4(t, Rm::Reg(ev.rm), 0x00, 0);
    let p3 = p2.vpshufd(r, Rm::Reg(t), 0x55, 0);
    let p4 = p3.vpshufd(t, Rm::Reg(t), 0x00, 0);
    let q = counted(p4, op, r, ev.vvvv, t);
    assert(fin == q.commit(ev.reg, r, ev));
    let consts = q.consts;
    assert(p0.meaning(consts, vm) == vm);
    meaning::lemma_temp(p0, consts, vm);
    meaning::lemma_temp(p0.temp(), consts, vm);
    meaning::lemma_vpermf32x4(p1, consts, vm, t, ev.rm, 0x00, 0);
    let m2 = p2.meaning(consts, vm);
    meaning::lemma_vpshufd(p2, consts, vm, r, t, 0x55, 0);
    let m3 = p3.meaning(consts, vm);
    meaning::lemma_vpshufd(p3, consts, vm, t, t, 0x00, 0);
    let m4 = p4.meaning(consts, vm);
    assert forall|i: int| 0 <= i < 16 implies #[trigger] m4.z[t][i] == vm.z[ev.rm][0] by {
        lemma_repeated(m2.z[t], vm.z[ev.rm], i);
        meaning::lemma_fields((i % 4) as u8, 0);
    }
    assert forall|i: int| 0 <= i < 16 implies #[trigger] m4.z[r][i] == vm.z[ev.rm][1] by {
        lemma_repeated(m2.z[t], vm.z[ev.rm], i);
        meaning::lemma_fields((i % 4) as u8, 0);
        assert(m3.z[r][i] == vm.z[ev.rm][1]);
    }
    let count = meaning::element(vm.z[ev.rm], 1, 0);
    assert(count % 0x1_0000_0000 == vm.z[ev.rm][0]);
    assert((vm.z[ev.rm][1] == 0) == (count < 0x1_0000_0000));
    lemma_counted(p4, consts, vm, insn.head.mnemonic, r, ev.vvvv, t, count, q);
    lemma_count_written(
        q,
        vm,
        ev,
        r,
        t,
        shifted_all(insn.head.mnemonic, vm.z[ev.vvvv], count),
    );
}

/// The lowest block repeated in every block.
proof fn lemma_repeated(v: Seq<u32>, z: Seq<u32>, i: int)
    requires
        0 <= i < 16,
        forall|j: int| 0 <= j < 16 ==> #[trigger] v[j] == z[4 * meaning::field(0, j / 4) + j % 4],
    ensures
        v[4 * (i / 4)] == z[0],
        v[4 * (i / 4) + 1] == z[1],
{
    let b = i / 4;
    meaning::lemma_fields(b as u8, 0);
    assert((4 * b) / 4 == b && (4 * b) % 4 == 0 && (4 * b + 1) / 4 == b && (4 * b + 1) % 4 == 1);
    assert(v[4 * b] == z[4 * meaning::field(0, b) + 0]);
    assert(v[4 * b + 1] == z[4 * meaning::field(0, b) + 1]);
}

/// The shifts by the count in memory do the same.
pub proof fn law_shift_by_memory(insn: Decoded, ev: Ev, scratch: i32, m: MemOp, vm: Vm)
    requires
        meaning::shaped(insn, ev),
        MemOp::spec_of(insn) == Some(m),
        meaning::named(insn, ev.vvvv),
        meaning::named(insn, ev.reg),
        (vm.addr)(m) % 4 == 0,
        (vm.addr)(m.spec_plus(4)) == (vm.addr)(m) + 4,
        vm.wf(),
    ensures
        ({
            let p = arith::shift_by_xmm_outcome(insn, ev, scratch)->Thunk_0;
            let after = p.meaning(p.consts, vm);
            &&& arith::shift_by_xmm_outcome(insn, ev, scratch) is Thunk
            &&& meaning::apart(vm, after, p.temps, ev.reg, p.kscr)
            &&& after.z[ev.reg] == meaning::written(
                ev,
                vm.z[ev.reg],
                shifted_all(
                    insn.head.mnemonic,
                    vm.z[ev.vvvv],
                    meaning::element(memory_results::dwords_at(vm, m), 1, 0),
                ),
                vm.k[ev.aaa],
            )
        }),
{
    let fin = arith::shift_by_xmm_outcome(insn, ev, scratch)->Thunk_0;
    let op = arith::variable_shift(insn.head.mnemonic);
    let p0 = Prog::start(scratch, insn);
    meaning::lemma_begin(scratch, insn, ev);
    let t = p0.next_temp();
    let r = p0.temp().next_temp();
    let p1 = p0.temp().temp();
    let p2 = p1.broadcast_load(t, Rm::Mem(m), 0, 0);
    let p3 = p2.broadcast_load(r, Rm::Mem(m.spec_plus(4)), 0, 0);
    let q = counted(p3, op, r, ev.vvvv, t);
    assert(fin == q.commit(ev.reg, r, ev));
    let consts = q.consts;
    assert(p0.meaning(consts, vm) == vm);
    meaning::lemma_temp(p0, consts, vm);
    meaning::lemma_temp(p0.temp(), consts, vm);
    memory_results::lemma_broadcast_load(p1, consts, vm, t, m, 0, 0);
    memory_results::lemma_broadcast_load(p2, consts, vm, r, m.spec_plus(4), 0, 0);
    let m3 = p3.meaning(consts, vm);
    let d = memory_results::dwords_at(vm, m);
    assert(forall|i: int| 0 <= i < 16 ==> #[trigger] m3.z[t][i] == d[0]);
    assert(forall|i: int| 0 <= i < 16 ==> #[trigger] m3.z[r][i] == d[1]);
    let count = meaning::element(d, 1, 0);
    assert(count % 0x1_0000_0000 == d[0]);
    assert((d[1] == 0) == (count < 0x1_0000_0000));
    lemma_counted(p3, consts, vm, insn.head.mnemonic, r, ev.vvvv, t, count, q);
    lemma_count_written(
        q,
        vm,
        ev,
        r,
        t,
        shifted_all(insn.head.mnemonic, vm.z[ev.vvvv], count),
    );
}

/// The card's shift of every lane by a count of its own.
proof fn lemma_variable_shift(
    p: Prog,
    consts: Seq<Seq<u8>>,
    vm: Vm,
    op: u8,
    d: u8,
    a: u8,
    b: u8,
)
    requires
        0x45 <= op <= 0x47,
    ensures
        ({
            let before = p.meaning(consts, vm);
            let after = p.i38(op, d, a, Rm::Reg(b), 0).meaning(consts, vm);
            &&& meaning::put(before, after, d)
            &&& forall|i: int|
                0 <= i < 16 ==> #[trigger] after.z[d][i] == meaning::shifted_by(
                    op,
                    before.z[a][i],
                    before.z[b][i],
                )
        }),
{
    broadcast use meaning::lemma_run;

    let before = p.meaning(consts, vm);
    let after = p.i38(op, d, a, Rm::Reg(b), 0).meaning(consts, vm);
    assert(after.z =~= before.z.insert(d, after.z[d]));
}

} // verus!
