//! What a memory operand comes to, in the model of [`crate::xlate::meaning`]:
//! it is read into a temporary, and the rest of the sequence is that of the
//! instruction with this register for its operand.
use crate::xlate::arith;
use crate::xlate::bytewise;
use crate::xlate::code::{MemOp, Mvex, Rm};
use crate::xlate::convert;
use crate::xlate::divide;
use crate::xlate::em;
use crate::xlate::ev;
use crate::xlate::ev::{Ev, Outcome};
use crate::xlate::insn::Decoded;
use crate::xlate::laws;
use crate::xlate::mask;
use crate::xlate::meaning;
use crate::xlate::meaning::Vm;
use crate::xlate::memory_results;
use crate::xlate::mnemonic as mn;
use crate::xlate::permute;
use crate::xlate::prog;
use crate::xlate::prog::{Prog, Step};
use crate::xlate::rewrite;
use crate::xlate::rewrite::Form;
use crate::xlate::shuffle;
use crate::xlate::table;
use crate::xlate::table::Canon;
use vstd::prelude::*;

verus! {

/// Whether two sequences, one begun in `vm` and the other in `vm2`, have come
/// to the same and use the same registers and constants.
#[verifier::opaque]
spec fn alike(p: Prog, q: Prog, vm: Vm, vm2: Vm) -> bool {
    &&& p.kscr == q.kscr
    &&& p.consts == q.consts
    &&& forall|r: u8| (p.operands + p.temps).contains(r) == #[trigger] (q.operands
        + q.temps).contains(r)
    &&& forall|c: Seq<Seq<u8>>| p.meaning(c, vm) == #[trigger] q.meaning(c, vm2)
}

/// The first free register depends on which registers are in use alone.
proof fn lemma_free(a: Seq<u8>, b: Seq<u8>, z: int)
    requires
        forall|r: u8| a.contains(r) == #[trigger] b.contains(r),
    ensures
        prog::free_from(a, z) == prog::free_from(b, z),
    decreases 32 - z,
{
    if z < 31 {
        assert(b.contains(z as u8) == a.contains(z as u8));
        lemma_free(a, b, z + 1);
    }
}

broadcast proof fn lemma_alike(p: Prog, q: Prog, vm: Vm, vm2: Vm)
    requires
        #[trigger] alike(p, q, vm, vm2),
    ensures
        p.kscr == q.kscr,
        p.consts == q.consts,
        p.next_temp() == q.next_temp(),
{
    reveal(alike);
    lemma_free(p.operands + p.temps, q.operands + q.temps, 0);
}

/// The same step keeps them so.
broadcast proof fn lemma_alike_step(p: Prog, q: Prog, vm: Vm, vm2: Vm, s: Step)
    requires
        alike(p, q, vm, vm2),
    ensures
        #[trigger] alike(p.step(s), q.step(s), vm, vm2),
{
    reveal(alike);
    assert forall|c: Seq<Seq<u8>>| p.step(s).meaning(c, vm) == #[trigger] q.step(s).meaning(
        c,
        vm2,
    ) by {
        meaning::lemma_run(vm, c, p.steps, s);
        meaning::lemma_run(vm2, c, q.steps, s);
        assert(p.meaning(c, vm) == q.meaning(c, vm2));
    }
}

broadcast proof fn lemma_alike_temp(p: Prog, q: Prog, vm: Vm, vm2: Vm)
    requires
        alike(p, q, vm, vm2),
    ensures
        #[trigger] alike(p.temp(), q.temp(), vm, vm2),
{
    lemma_alike(p, q, vm, vm2);
    let z = p.next_temp();
    lemma_alike_step(p, q, vm, vm2, Step::Temp(z));
    reveal(alike);
    let (a, b) = (p.operands + p.temps, q.operands + q.temps);
    assert(p.temp().operands + p.temp().temps =~= a.push(z));
    assert(q.temp().operands + q.temp().temps =~= b.push(z));
    assert forall|r: u8| a.push(z).contains(r) == #[trigger] b.push(z).contains(r) by {
        lemma_push(a, z, r);
        lemma_push(b, z, r);
        assert(a.contains(r) == b.contains(r));
    }
    assert forall|c: Seq<Seq<u8>>| p.temp().meaning(c, vm) == #[trigger] q.temp().meaning(
        c,
        vm2,
    ) by {
        assert(p.step(Step::Temp(z)).meaning(c, vm) == q.step(Step::Temp(z)).meaning(c, vm2));
    }
}

proof fn lemma_push(s: Seq<u8>, z: u8, r: u8)
    ensures
        s.push(z).contains(r) == (s.contains(r) || r == z),
{
    if s.contains(r) {
        let i = choose|i: int| 0 <= i < s.len() && s[i] == r;
        assert(s.push(z)[i] == r);
    }
    assert(s.push(z)[s.len() as int] == z);
    if s.push(z).contains(r) && r != z {
        let i = choose|i: int| 0 <= i < s.push(z).len() && s.push(z)[i] == r;
        assert(s[i] == r);
    }
}

broadcast proof fn lemma_alike_constant(p: Prog, q: Prog, vm: Vm, vm2: Vm, c: Seq<u8>)
    requires
        alike(p, q, vm, vm2),
    ensures
        #[trigger] alike(p.constant(c), q.constant(c), vm, vm2),
{
    reveal(alike);
    let (a, b) = (p.constant(c), q.constant(c));
    assert forall|cs: Seq<Seq<u8>>| a.meaning(cs, vm) == #[trigger] b.meaning(cs, vm2) by {
        assert(p.meaning(cs, vm) == q.meaning(cs, vm2));
    }
}

/// A result written under the same mask and length keeps them so.
proof fn lemma_alike_commit(p: Prog, q: Prog, vm: Vm, vm2: Vm, d: u8, r: u8, ev: Ev, ev2: Ev)
    requires
        alike(p, q, vm, vm2),
        ev.ll == ev2.ll && ev.w == ev2.w && ev.aaa == ev2.aaa && ev.z == ev2.z,
    ensures
        alike(p.commit(d, r, ev), q.commit(d, r, ev2), vm, vm2),
{
    broadcast use lemma_alike;
    broadcast use lemma_alike_step;

    reveal(Prog::commit);
}

/// Whether the memory operand can be read in `vm`: broadcast, on a boundary
/// of its element, or through the unaligned pair.
pub open spec fn reads(vm: Vm, m: MemOp, ev: Ev) -> bool {
    if ev.b {
        &&& (vm.addr)(m) % 4 == 0
        &&& ev.w == 1 ==> (vm.addr)(m) % 8 == 0
    } else {
        memory_results::readable(vm, m)
    }
}

/// What the memory operand holds: one element in every element, or the dwords
/// from it on.
pub open spec fn held(vm: Vm, m: MemOp, ev: Ev) -> Seq<u32> {
    if ev.b {
        vm.spread(ev.w, (vm.addr)(m))
    } else {
        memory_results::dwords_at(vm, m)
    }
}

/// Whether `after` is `before` with the memory operand in the register `u`,
/// as far as the vector length goes, and perhaps another scratch mask.
pub open spec fn read_into(before: Vm, after: Vm, u: u8, kscr: u8, m: MemOp, ev: Ev) -> bool {
    &&& meaning::only(before, after, u, kscr)
    &&& after.addr == before.addr
    &&& forall|i: int|
        0 <= i < meaning::dwords_of(ev.ll) ==> #[trigger] after.z[u][i] == held(before, m, ev)[i]
}

/// The second source brought into a register reads the memory operand,
/// whatever the constants.
#[verifier::rlimit(30)]
proof fn lemma_src2(p: Prog, vm: Vm, insn: Decoded, ev: Ev)
    requires
        forall|c: Seq<Seq<u8>>| #[trigger] p.meaning(c, vm) == vm,
        MemOp::spec_of(insn) is Some,
        reads(vm, MemOp::spec_of(insn)->0, ev),
        vm.wf(),
        ev.ll <= 2,
        ev.w <= 1,
        p.kscr != 0,
    ensures
        ({
            let q = p.src2(insn, ev);
            let vm2 = q.meaning(seq![], vm);
            &&& forall|c: Seq<Seq<u8>>| #[trigger] q.meaning(c, vm) == vm2
            &&& read_into(vm, vm2, p.next_temp(), p.kscr, MemOp::spec_of(insn)->0, ev)
            &&& q.kscr == p.kscr
            &&& q.consts == p.consts
            &&& q.operands == p.operands
            &&& q.temps == p.temps.push(p.next_temp())
        }),
{
    let m = MemOp::spec_of(insn)->0;
    let u = p.next_temp();
    let q = p.src2(insn, ev);
    let vm2 = q.meaning(seq![], vm);
    assert forall|c: Seq<Seq<u8>>| #[trigger] q.meaning(c, vm) == vm2 by {
        broadcast use meaning::lemma_run;

        assert(p.meaning(c, vm) == p.meaning(seq![], vm));
    }
    let c: Seq<Seq<u8>> = seq![];
    let p1 = p.temp();
    meaning::lemma_temp(p, c, vm);
    assert(p.meaning(c, vm) == vm);
    if ev.b {
        assert(vm2 == p1.meaning(c, vm).recovered(m).memory(
            (Mvex {
                map: 1,
                pp: ev.w,
                w: ev.w,
                op: 0x28,
                reg: u,
                vvvv: 0,
                rm: Rm::Mem(m),
                k: 0,
                sss: 1,
                imm: None,
            }),
            m,
        )) by {
            broadcast use meaning::lemma_run;

        }
    } else if ev.ll == 2 {
        memory_results::lemma_load_pair(p1, c, vm, u, m, 0, 16);
    } else {
        let lanes = ev::vl_lanes(ev.ll, 0);
        meaning::lemma_mask_imm(p1, c, vm, lanes);
        let p2 = p1.mask_imm(lanes);
        let m2 = p2.meaning(c, vm);
        let n = meaning::dwords_of(ev.ll);
        assert forall|i: int| 0 <= i < 16 implies #[trigger] meaning::bit(m2.k[p.kscr], i) == (i
            < n) by {
            meaning::lemma_lanes(i as u16);
        }
        memory_results::lemma_load_pair(p2, c, vm, u, m, p.kscr, n);
    }
}

/// Whether `reg` with `ev2` is `insn` with `ev`, the register `u` standing in
/// the place of the memory operand.
pub open spec fn stands_for(insn: Decoded, ev: Ev, reg: Decoded, ev2: Ev, u: u8) -> bool {
    &&& reg.head == insn.head
    &&& !reg.has_mem()
    &&& reg.ends_in_imm8() == insn.ends_in_imm8()
    &&& prog::mask_regs(reg) == prog::mask_regs(insn)
    &&& forall|r: u8| #[trigger]
        meaning::named(reg, r) == (meaning::named(insn, r) || r == u)
    &&& ev2 == (Ev { rm: u, b: false, is_reg_rm: true, ..ev })
}

/// An instruction with a memory operand that can be read, and the same
/// instruction with a register for it.
pub open spec fn paired(insn: Decoded, ev: Ev, reg: Decoded, ev2: Ev, u: u8, vm: Vm) -> bool {
    &&& MemOp::spec_of(insn) is Some
    &&& reads(vm, MemOp::spec_of(insn)->0, ev)
    &&& stands_for(insn, ev, reg, ev2, u)
    &&& insn.head.op_count <= 5
    &&& vm.wf()
    &&& ev.ll <= 2
    &&& ev.w <= 1
}

/// The sequences that read the operand first go on alike.
proof fn lemma_first(
    insn: Decoded,
    ev: Ev,
    reg: Decoded,
    ev2: Ev,
    scratch: i32,
    vm: Vm,
)
    requires
        paired(insn, ev, reg, ev2, Prog::start(scratch, insn).next_temp(), vm),
    ensures
        ({
            let p = Prog::start(scratch, insn);
            let q = Prog::start(scratch, reg);
            let vm2 = p.src2(insn, ev).meaning(seq![], vm);
            &&& alike(p.src2(insn, ev), q, vm, vm2)
            &&& q.src2(reg, ev2) == q
            &&& q.src2_reg(reg, ev2) == p.src2_reg(insn, ev)
            &&& read_into(vm, vm2, p.next_temp(), p.kscr, MemOp::spec_of(insn)->0, ev)
        }),
{
    let p = Prog::start(scratch, insn);
    let q = Prog::start(scratch, reg);
    let vm2 = p.src2(insn, ev).meaning(seq![], vm);
    lemma_ahead_start(insn, ev, reg, ev2, p.next_temp(), scratch, vm, vm2);
    lemma_ahead_read(p, q, insn, ev, reg, ev2, vm, vm2);
}

/// The operand read, the sequences take one more temporary, or two, alike.
proof fn lemma_taken(insn: Decoded, ev: Ev, reg: Decoded, ev2: Ev, scratch: i32, vm: Vm)
    requires
        paired(insn, ev, reg, ev2, Prog::start(scratch, insn).next_temp(), vm),
    ensures
        ({
            let vm2 = staged(insn, ev, scratch, vm);
            let p = Prog::start(scratch, insn).src2(insn, ev);
            let q = Prog::start(scratch, reg);
            &&& q.src2(reg, ev2) == q
            &&& q.src2_reg(reg, ev2) == Prog::start(scratch, insn).src2_reg(insn, ev)
            &&& alike(p, q, vm, vm2)
            &&& alike(p.temp(), q.temp(), vm, vm2)
            &&& alike(p.temp().temp(), q.temp().temp(), vm, vm2)
            &&& p.next_temp() == q.next_temp()
            &&& p.temp().next_temp() == q.temp().next_temp()
        }),
{
    lemma_first(insn, ev, reg, ev2, scratch, vm);
    let vm2 = staged(insn, ev, scratch, vm);
    let p = Prog::start(scratch, insn).src2(insn, ev);
    let q = Prog::start(scratch, reg);
    lemma_alike(p, q, vm, vm2);
    lemma_alike_temp(p, q, vm, vm2);
    lemma_alike(p.temp(), q.temp(), vm, vm2);
    lemma_alike_temp(p.temp(), q.temp(), vm, vm2);
}

/// The registers once the operand is read.
pub open spec fn staged(insn: Decoded, ev: Ev, scratch: i32, vm: Vm) -> Vm {
    Prog::start(scratch, insn).src2(insn, ev).meaning(seq![], vm)
}

proof fn lemma_shift_q(insn: Decoded, ev: Ev, reg: Decoded, ev2: Ev, scratch: i32, vm: Vm)
    requires
        paired(insn, ev, reg, ev2, Prog::start(scratch, insn).next_temp(), vm),
    ensures
        alike(
            arith::shift_q_outcome(insn, ev, scratch)->Thunk_0,
            arith::shift_q_outcome(reg, ev2, scratch)->Thunk_0,
            vm,
            staged(insn, ev, scratch, vm),
        ),
{
    broadcast use lemma_alike;
    broadcast use lemma_alike_step;

    lemma_taken(insn, ev, reg, ev2, scratch, vm);
    let vm2 = staged(insn, ev, scratch, vm);
    let s = Prog::start(scratch, insn).src2_reg(insn, ev);
    let p = Prog::start(scratch, insn).src2(insn, ev);
    let q = Prog::start(scratch, reg);
    let r = p.next_temp();
    let p1 = p.temp();
    let q1 = q.temp();
    let t = p1.next_temp();
    let p2 = p1.temp();
    let q2 = q1.temp();
    let m = insn.head.mnemonic;
    let n = insn.head.imm8;
    let (e, e2) = ((Ev { w: 1, ..ev }), (Ev { w: 1, ..ev2 }));
    if m == mn::VPSRLQ || m == mn::VPSRAQ {
        let p3 = p2.shift_right_q(r, s, t, n, m == mn::VPSRAQ);
        let q3 = q2.shift_right_q(r, s, t, n, m == mn::VPSRAQ);
        assert(alike(p3, q3, vm, vm2));
        lemma_alike_commit(p3, q3, vm, vm2, ev.vvvv, r, e, e2);
    } else {
        let p3 = p2.shift_left_q(r, s, t, n);
        let q3 = q2.shift_left_q(r, s, t, n);
        assert(alike(p3, q3, vm, vm2));
        lemma_alike_commit(p3, q3, vm, vm2, ev.vvvv, r, e, e2);
    }
}

proof fn lemma_abs_d(insn: Decoded, ev: Ev, reg: Decoded, ev2: Ev, scratch: i32, vm: Vm)
    requires
        paired(insn, ev, reg, ev2, Prog::start(scratch, insn).next_temp(), vm),
    ensures
        alike(
            arith::abs_d_outcome(insn, ev, scratch)->Thunk_0,
            arith::abs_d_outcome(reg, ev2, scratch)->Thunk_0,
            vm,
            staged(insn, ev, scratch, vm),
        ),
{
    broadcast use lemma_alike;
    broadcast use lemma_alike_step;

    lemma_taken(insn, ev, reg, ev2, scratch, vm);
    let vm2 = staged(insn, ev, scratch, vm);
    let s = Prog::start(scratch, insn).src2_reg(insn, ev);
    let p = Prog::start(scratch, insn).src2(insn, ev);
    let q = Prog::start(scratch, reg);
    let r = p.next_temp();
    let p1 = p.temp();
    let q1 = q.temp();
    let t = p1.next_temp();
    let p2 = p1.temp();
    let q2 = q1.temp();
    let p3 = p2.shift_imm(4, t, Rm::Reg(s), 31, 0).i0f(0xEF, r, s, Rm::Reg(t), 0, 0).i0f(
        0xFA,
        r,
        r,
        Rm::Reg(t),
        0,
        0,
    );
    let q3 = q2.shift_imm(4, t, Rm::Reg(s), 31, 0).i0f(0xEF, r, s, Rm::Reg(t), 0, 0).i0f(
        0xFA,
        r,
        r,
        Rm::Reg(t),
        0,
        0,
    );
    assert(alike(p3, q3, vm, vm2));
    lemma_alike_commit(p3, q3, vm, vm2, ev.reg, r, ev, ev2);
}

proof fn lemma_muludq(insn: Decoded, ev: Ev, reg: Decoded, ev2: Ev, scratch: i32, vm: Vm)
    requires
        paired(insn, ev, reg, ev2, Prog::start(scratch, insn).next_temp(), vm),
    ensures
        alike(
            arith::muludq_outcome(insn, ev, scratch)->Thunk_0,
            arith::muludq_outcome(reg, ev2, scratch)->Thunk_0,
            vm,
            staged(insn, ev, scratch, vm),
        ),
{
    broadcast use lemma_alike;
    broadcast use lemma_alike_step;

    lemma_taken(insn, ev, reg, ev2, scratch, vm);
    let vm2 = staged(insn, ev, scratch, vm);
    let s = Prog::start(scratch, insn).src2_reg(insn, ev);
    let p = Prog::start(scratch, insn).src2(insn, ev);
    let q = Prog::start(scratch, reg);
    let r = p.next_temp();
    let p1 = p.temp();
    let q1 = q.temp();
    let t = p1.next_temp();
    let p2 = p1.temp();
    let q2 = q1.temp();
    let p3 = p2.i38(0x40, r, ev.vvvv, Rm::Reg(s), 0).i38(0x86, t, ev.vvvv, Rm::Reg(s), 0).vpshufd(
        t,
        Rm::Reg(t),
        0xa0,
        0,
    ).mask_imm(arith::ODD).vmov(r, Rm::Reg(t), p.kscr, 0);
    let q3 = q2.i38(0x40, r, ev.vvvv, Rm::Reg(s), 0).i38(0x86, t, ev.vvvv, Rm::Reg(s), 0).vpshufd(
        t,
        Rm::Reg(t),
        0xa0,
        0,
    ).mask_imm(arith::ODD).vmov(r, Rm::Reg(t), q.kscr, 0);
    assert(alike(p3, q3, vm, vm2));
    lemma_alike_commit(p3, q3, vm, vm2, ev.reg, r, (Ev { w: 1, ..ev }), (Ev { w: 1, ..ev2 }));
}

proof fn lemma_minmax(insn: Decoded, ev: Ev, reg: Decoded, ev2: Ev, scratch: i32, vm: Vm)
    requires
        paired(insn, ev, reg, ev2, Prog::start(scratch, insn).next_temp(), vm),
    ensures
        alike(
            arith::minmax_outcome(insn, ev, scratch)->Thunk_0,
            arith::minmax_outcome(reg, ev2, scratch)->Thunk_0,
            vm,
            staged(insn, ev, scratch, vm),
        ),
{
    broadcast use lemma_alike;
    broadcast use lemma_alike_step;

    lemma_taken(insn, ev, reg, ev2, scratch, vm);
    let vm2 = staged(insn, ev, scratch, vm);
    let s = Prog::start(scratch, insn).src2_reg(insn, ev);
    let p = Prog::start(scratch, insn).src2(insn, ev);
    let q = Prog::start(scratch, reg);
    let r = p.next_temp();
    let p1 = p.temp();
    let q1 = q.temp();
    let t = p1.next_temp();
    let p2 = p1.temp();
    let q2 = q1.temp();
    let is_max = insn.head.mnemonic == mn::VMAXPS || insn.head.mnemonic == mn::VMAXPD;
    let p3 = p1.pick(r, ev.vvvv, s, is_max, ev.w);
    let q3 = q1.pick(r, ev.vvvv, s, is_max, ev.w);
    assert(alike(p3, q3, vm, vm2));
    lemma_alike_commit(p3, q3, vm, vm2, ev.reg, r, ev, ev2);
}

proof fn lemma_interleave(insn: Decoded, ev: Ev, reg: Decoded, ev2: Ev, scratch: i32, vm: Vm)
    requires
        paired(insn, ev, reg, ev2, Prog::start(scratch, insn).next_temp(), vm),
        shuffle::interleave_outcome(insn, ev, scratch) is Thunk,
    ensures
        alike(
            shuffle::interleave_outcome(insn, ev, scratch)->Thunk_0,
            shuffle::interleave_outcome(reg, ev2, scratch)->Thunk_0,
            vm,
            staged(insn, ev, scratch, vm),
        ),
{
    broadcast use lemma_alike;
    broadcast use lemma_alike_step;

    lemma_taken(insn, ev, reg, ev2, scratch, vm);
    let vm2 = staged(insn, ev, scratch, vm);
    let s = Prog::start(scratch, insn).src2_reg(insn, ev);
    let p = Prog::start(scratch, insn).src2(insn, ev);
    let q = Prog::start(scratch, reg);
    let r = p.next_temp();
    let p1 = p.temp();
    let q1 = q.temp();
    let t = p1.next_temp();
    let p2 = p1.temp();
    let q2 = q1.temp();
    let sh = shuffle::interleaving(insn.head.mnemonic, insn.head.imm8);
    let p3 = p2.vpshufd(r, Rm::Reg(ev.vvvv), sh.0, 0).vpshufd(t, Rm::Reg(s), sh.1, 0).mask_imm(
        sh.2,
    ).vmov(r, Rm::Reg(t), p.kscr, 0);
    let q3 = q2.vpshufd(r, Rm::Reg(ev.vvvv), sh.0, 0).vpshufd(t, Rm::Reg(s), sh.1, 0).mask_imm(
        sh.2,
    ).vmov(r, Rm::Reg(t), q.kscr, 0);
    assert(alike(p3, q3, vm, vm2));
    lemma_alike_commit(p3, q3, vm, vm2, ev.reg, r, ev, ev2);
}

proof fn lemma_valignq(insn: Decoded, ev: Ev, reg: Decoded, ev2: Ev, scratch: i32, vm: Vm)
    requires
        paired(insn, ev, reg, ev2, Prog::start(scratch, insn).next_temp(), vm),
    ensures
        alike(
            shuffle::valignq_outcome(insn, ev, scratch)->Thunk_0,
            shuffle::valignq_outcome(reg, ev2, scratch)->Thunk_0,
            vm,
            staged(insn, ev, scratch, vm),
        ),
{
    broadcast use lemma_alike;
    broadcast use lemma_alike_step;

    lemma_taken(insn, ev, reg, ev2, scratch, vm);
    let vm2 = staged(insn, ev, scratch, vm);
    let s = Prog::start(scratch, insn).src2_reg(insn, ev);
    let p = Prog::start(scratch, insn).src2(insn, ev);
    let q = Prog::start(scratch, reg);
    let r = p.next_temp();
    let p1 = p.temp();
    let q1 = q.temp();
    let t = p1.next_temp();
    let p2 = p1.temp();
    let q2 = q1.temp();
    let n = (shuffle::qwords_shifted(ev.ll, insn.head.imm8) * 2) as u8;
    if ev.ll == 2 {
        let p3 = p1.valignd(r, ev.vvvv, Rm::Reg(s), n, 0);
        let q3 = q1.valignd(r, ev.vvvv, Rm::Reg(s), n, 0);
        assert(alike(p3, q3, vm, vm2));
        lemma_alike_commit(p3, q3, vm, vm2, ev.reg, r, ev, ev2);
    } else {
        let lanes: u16 = if ev.ll == 1 {
            0xff00
        } else {
            0x00f0
        };
        let imm: u8 = if ev.ll == 1 {
            0x4e
        } else {
            0x00
        };
        let p3 = p2.vmov(t, Rm::Reg(s), 0, 0).mask_imm(lanes).vpermf32x4(
            t,
            Rm::Reg(ev.vvvv),
            imm,
            p.kscr,
        ).valignd(r, t, Rm::Reg(t), n, 0);
        let q3 = q2.vmov(t, Rm::Reg(s), 0, 0).mask_imm(lanes).vpermf32x4(
            t,
            Rm::Reg(ev.vvvv),
            imm,
            q.kscr,
        ).valignd(r, t, Rm::Reg(t), n, 0);
        assert(alike(p3, q3, vm, vm2));
        lemma_alike_commit(p3, q3, vm, vm2, ev.reg, r, ev, ev2);
    }
}

proof fn lemma_insert(insn: Decoded, ev: Ev, reg: Decoded, ev2: Ev, scratch: i32, vm: Vm)
    requires
        paired(insn, ev, reg, ev2, Prog::start(scratch, insn).next_temp(), vm),
    ensures
        alike(
            shuffle::insert_outcome(insn, ev, scratch)->Thunk_0,
            shuffle::insert_outcome(reg, ev2, scratch)->Thunk_0,
            vm,
            staged(insn, ev, scratch, vm),
        ),
{
    broadcast use lemma_alike;
    broadcast use lemma_alike_step;

    lemma_taken(insn, ev, reg, ev2, scratch, vm);
    let vm2 = staged(insn, ev, scratch, vm);
    let s = Prog::start(scratch, insn).src2_reg(insn, ev);
    let p = Prog::start(scratch, insn).src2(insn, ev);
    let q = Prog::start(scratch, reg);
    let r = p.next_temp();
    let p1 = p.temp();
    let q1 = q.temp();
    let t = p1.next_temp();
    let p2 = p1.temp();
    let q2 = q1.temp();
    let half = shuffle::inserts_half(insn.head.mnemonic);
    let lanes = shuffle::insert_lanes(half, ev.ll, insn.head.imm8);
    let imm: u8 = if half {
        0x44
    } else {
        0x00
    };
    let narrow = ev.reg == s || ev.aaa != 0;
    let d = if narrow {
        r
    } else {
        ev.reg
    };
    let (pa, qa) = if narrow {
        (p1, q1)
    } else {
        (p, q)
    };
    assert(alike(pa, qa, vm, vm2));
    assert(p.result_temp(narrow) == pa && q.result_temp(narrow) == qa);
    let pb = if d != ev.vvvv {
        pa.vmov(d, Rm::Reg(ev.vvvv), 0, 0)
    } else {
        pa
    };
    let qb = if d != ev.vvvv {
        qa.vmov(d, Rm::Reg(ev.vvvv), 0, 0)
    } else {
        qa
    };
    assert(alike(pb, qb, vm, vm2));
    let p3 = pb.mask_imm(lanes).vpermf32x4(d, Rm::Reg(s), imm, pb.kscr);
    let q3 = qb.mask_imm(lanes).vpermf32x4(d, Rm::Reg(s), imm, qb.kscr);
    assert(alike(p3, q3, vm, vm2));
    lemma_alike_commit(p3, q3, vm, vm2, ev.reg, d, ev, ev2);
}

proof fn lemma_ternlog(insn: Decoded, ev: Ev, reg: Decoded, ev2: Ev, scratch: i32, vm: Vm)
    requires
        paired(insn, ev, reg, ev2, Prog::start(scratch, insn).next_temp(), vm),
        insn.head.imm8 != 0 && insn.head.imm8 != 0xff,
    ensures
        alike(
            arith::ternlog_outcome(insn, ev, scratch)->Thunk_0,
            arith::ternlog_outcome(reg, ev2, scratch)->Thunk_0,
            vm,
            staged(insn, ev, scratch, vm),
        ),
{
    broadcast use lemma_alike;
    broadcast use lemma_alike_step;

    lemma_taken(insn, ev, reg, ev2, scratch, vm);
    let vm2 = staged(insn, ev, scratch, vm);
    let s = Prog::start(scratch, insn).src2_reg(insn, ev);
    let p = Prog::start(scratch, insn).src2(insn, ev);
    let q = Prog::start(scratch, reg);
    let r = p.next_temp();
    let p1 = p.temp();
    let q1 = q.temp();
    let t = p1.next_temp();
    let p2 = p1.temp();
    let q2 = q1.temp();
    let imm = insn.head.imm8;
    if imm == 0x96 {
        let p3 = p2.i0f(0xEF, r, ev.reg, Rm::Reg(ev.vvvv), 0, ev.w).i0f(
            0xEF,
            r,
            r,
            Rm::Reg(s),
            0,
            ev.w,
        );
        let q3 = q2.i0f(0xEF, r, ev.reg, Rm::Reg(ev.vvvv), 0, ev.w).i0f(
            0xEF,
            r,
            r,
            Rm::Reg(s),
            0,
            ev.w,
        );
        assert(alike(p3, q3, vm, vm2));
        lemma_alike_commit(p3, q3, vm, vm2, ev.reg, r, ev, ev2);
    } else {
        let pa = p2.bool2(r, ev.vvvv, s, imm >> 4, ev.w);
        let qa = q2.bool2(r, ev.vvvv, s, imm >> 4, ev.w);
        lemma_alike_bool2(p2, q2, vm, vm2, r, ev.vvvv, s, imm >> 4, ev.w);
        let pb = pa.bool2(t, ev.vvvv, s, imm & 0xf, ev.w);
        let qb = qa.bool2(t, ev.vvvv, s, imm & 0xf, ev.w);
        lemma_alike_bool2(pa, qa, vm, vm2, t, ev.vvvv, s, imm & 0xf, ev.w);
        let p3 = pb.i0f(0xDB, r, ev.reg, Rm::Reg(r), 0, ev.w).i0f(
            0xDF,
            t,
            ev.reg,
            Rm::Reg(t),
            0,
            ev.w,
        ).i0f(0xEB, r, r, Rm::Reg(t), 0, ev.w);
        let q3 = qb.i0f(0xDB, r, ev.reg, Rm::Reg(r), 0, ev.w).i0f(
            0xDF,
            t,
            ev.reg,
            Rm::Reg(t),
            0,
            ev.w,
        ).i0f(0xEB, r, r, Rm::Reg(t), 0, ev.w);
        assert(alike(p3, q3, vm, vm2));
        lemma_alike_commit(p3, q3, vm, vm2, ev.reg, r, ev, ev2);
    }
}

proof fn lemma_alike_bool2(
    p: Prog,
    q: Prog,
    vm: Vm,
    vm2: Vm,
    t: u8,
    b: u8,
    c: u8,
    table: u8,
    w: u8,
)
    requires
        alike(p, q, vm, vm2),
    ensures
        alike(p.bool2(t, b, c, table, w), q.bool2(t, b, c, table, w), vm, vm2),
{
    broadcast use lemma_alike;
    broadcast use lemma_alike_step;
    broadcast use lemma_alike_constant;

    reveal(Prog::bool2);
}

/// Another register in use leaves the first free one, unless it is that.
proof fn lemma_free_still(a: Seq<u8>, b: Seq<u8>, u: u8, z: int)
    requires
        forall|r: u8| #[trigger] b.contains(r) == (a.contains(r) || r == u),
        prog::free_from(a, z) != u,
        0 <= z < 32,
    ensures
        prog::free_from(b, z) == prog::free_from(a, z),
    decreases 32 - z,
{
    if z < 31 {
        assert(b.contains(z as u8) == (a.contains(z as u8) || z as u8 == u));
        if a.contains(z as u8) {
            lemma_free_still(a, b, u, z + 1);
        }
    }
}

/// Whether `p` is still to read its operand into `u`, which `q` has from the
/// start, and neither has run anything.
#[verifier::opaque]
spec fn ahead(p: Prog, q: Prog, u: u8, vm: Vm, vm2: Vm) -> bool {
    &&& p.kscr == q.kscr
    &&& p.kscr != 0
    &&& p.consts == q.consts
    &&& p.operands.len() + p.temps.len() < 32
    &&& forall|r: u8| #[trigger]
        (q.operands + q.temps).contains(r) == ((p.operands + p.temps).contains(r) || r == u)
    &&& forall|c: Seq<Seq<u8>>| #[trigger] p.meaning(c, vm) == vm
    &&& forall|c: Seq<Seq<u8>>| #[trigger] q.meaning(c, vm2) == vm2
}

proof fn lemma_ahead_start(
    insn: Decoded,
    ev: Ev,
    reg: Decoded,
    ev2: Ev,
    u: u8,
    scratch: i32,
    vm: Vm,
    vm2: Vm,
)
    requires
        paired(insn, ev, reg, ev2, u, vm),
    ensures
        ahead(Prog::start(scratch, insn), Prog::start(scratch, reg), u, vm, vm2),
{
    reveal(ahead);
    let p = Prog::start(scratch, insn);
    let q = Prog::start(scratch, reg);
    laws::law_scratch_mask(scratch, insn);
    meaning::lemma_few_vregs(insn, insn.head.op_count as int);
    assert(p.operands + p.temps =~= p.operands);
    assert(q.operands + q.temps =~= q.operands);
    assert forall|r: u8| #[trigger]
        (q.operands + q.temps).contains(r) == ((p.operands + p.temps).contains(r) || r == u) by {
        assert(meaning::named(reg, r) == (meaning::named(insn, r) || r == u));
    }
}

proof fn lemma_ahead_temp(p: Prog, q: Prog, u: u8, vm: Vm, vm2: Vm)
    requires
        ahead(p, q, u, vm, vm2),
        p.next_temp() != u,
        p.operands.len() + p.temps.len() < 31,
    ensures
        p.next_temp() == q.next_temp(),
        ahead(p.temp(), q.temp(), u, vm, vm2),
{
    reveal(ahead);
    let (a, b) = (p.operands + p.temps, q.operands + q.temps);
    lemma_free_still(a, b, u, 0);
    let z = p.next_temp();
    assert(p.temp().operands + p.temp().temps =~= a.push(z));
    assert(q.temp().operands + q.temp().temps =~= b.push(z));
    assert forall|r: u8| #[trigger] b.push(z).contains(r) == (a.push(z).contains(r) || r == u) by {
        lemma_push(a, z, r);
        lemma_push(b, z, r);
        assert(b.contains(r) == (a.contains(r) || r == u));
    }
    assert forall|c: Seq<Seq<u8>>| #[trigger] p.temp().meaning(c, vm) == vm by {
        meaning::lemma_temp(p, c, vm);
        assert(p.meaning(c, vm) == vm);
    }
    assert forall|c: Seq<Seq<u8>>| #[trigger] q.temp().meaning(c, vm2) == vm2 by {
        meaning::lemma_temp(q, c, vm2);
        assert(q.meaning(c, vm2) == vm2);
    }
}

proof fn lemma_ahead_constant(p: Prog, q: Prog, u: u8, vm: Vm, vm2: Vm, c: Seq<u8>)
    requires
        ahead(p, q, u, vm, vm2),
    ensures
        ahead(p.constant(c), q.constant(c), u, vm, vm2),
        p.index_of(c) == q.index_of(c),
        p.constant(c).next_temp() == p.next_temp(),
{
    reveal(ahead);
    assert forall|cs: Seq<Seq<u8>>| #[trigger] p.constant(c).meaning(cs, vm) == vm by {
        assert(p.meaning(cs, vm) == vm);
    }
    assert forall|cs: Seq<Seq<u8>>| #[trigger] q.constant(c).meaning(cs, vm2) == vm2 by {
        assert(q.meaning(cs, vm2) == vm2);
    }
}

/// The operand read, they go on alike.
proof fn lemma_ahead_read(
    p: Prog,
    q: Prog,
    insn: Decoded,
    ev: Ev,
    reg: Decoded,
    ev2: Ev,
    vm: Vm,
    vm2: Vm,
)
    requires
        ahead(p, q, p.next_temp(), vm, vm2),
        paired(insn, ev, reg, ev2, p.next_temp(), vm),
        vm2 == p.src2(insn, ev).meaning(seq![], vm),
    ensures
        alike(p.src2(insn, ev), q, vm, vm2),
        q.src2(reg, ev2) == q,
        q.src2_reg(reg, ev2) == p.src2_reg(insn, ev),
        read_into(vm, vm2, p.next_temp(), p.kscr, MemOp::spec_of(insn)->0, ev),
{
    reveal(ahead);
    reveal(alike);
    lemma_src2(p, vm, insn, ev);
    let u = p.next_temp();
    let p2 = p.src2(insn, ev);
    assert(p2.operands + p2.temps =~= (p.operands + p.temps).push(u));
    assert forall|r: u8| (p2.operands + p2.temps).contains(r) == #[trigger] (q.operands
        + q.temps).contains(r) by {
        lemma_push(p.operands + p.temps, u, r);
    }
}

/// A permute's sequence reads its operand after two temporaries are taken.
proof fn lemma_permute(insn: Decoded, ev: Ev, reg: Decoded, ev2: Ev, scratch: i32, vm: Vm)
    requires
        paired(insn, ev, reg, ev2, Prog::start(scratch, insn).temp().temp().next_temp(), vm),
    ensures
        ({
            let two = Prog::start(scratch, insn).temp().temp();
            let vm2 = two.src2(insn, ev).meaning(seq![], vm);
            &&& alike(
                permute::permute_outcome(insn, ev, scratch)->Thunk_0,
                permute::permute_outcome(reg, ev2, scratch)->Thunk_0,
                vm,
                vm2,
            )
            &&& read_into(vm, vm2, two.next_temp(), two.kscr, MemOp::spec_of(insn)->0, ev)
        }),
{
    let p0 = Prog::start(scratch, insn);
    let q0 = Prog::start(scratch, reg);
    let p1 = p0.temp();
    let q1 = q0.temp();
    let two = p1.temp();
    let u = two.next_temp();
    let vm2 = two.src2(insn, ev).meaning(seq![], vm);
    let r = p0.next_temp();
    let t = p1.next_temp();
    meaning::lemma_few_vregs(insn, insn.head.op_count as int);
    em::lemma_some_free(two.operands + two.temps);
    assert((two.operands + two.temps)[two.operands.len() as int] == r);
    assert((two.operands + two.temps)[two.operands.len() as int + 1] == t);
    lemma_ahead_start(insn, ev, reg, ev2, u, scratch, vm, vm2);
    lemma_ahead_temp(p0, q0, u, vm, vm2);
    lemma_ahead_temp(p1, q1, u, vm, vm2);
    let v = prog::dwords(permute::lane_parity());
    let odd = two.index_of(v);
    let p2 = two.constant(v);
    let q2 = q1.temp().constant(v);
    lemma_ahead_constant(two, q1.temp(), u, vm, vm2, v);
    assert(p2.src2(insn, ev).steps == two.src2(insn, ev).steps);
    lemma_ahead_read(p2, q2, insn, ev, reg, ev2, vm, vm2);
    lemma_permuted(p2, q2, insn, ev, reg, ev2, odd, r, t, vm, vm2);
    lemma_alike_commit(
        permute::permuted(p2, insn, ev, odd, r, t),
        permute::permuted(q2, reg, ev2, odd, r, t),
        vm,
        vm2,
        ev.reg,
        r,
        ev,
        ev2,
    );
}

proof fn lemma_permuted(
    p: Prog,
    q: Prog,
    insn: Decoded,
    ev: Ev,
    reg: Decoded,
    ev2: Ev,
    odd: usize,
    r: u8,
    t: u8,
    vm: Vm,
    vm2: Vm,
)
    requires
        ahead(p, q, p.next_temp(), vm, vm2),
        paired(insn, ev, reg, ev2, p.next_temp(), vm),
        vm2 == p.src2(insn, ev).meaning(seq![], vm),
        alike(p.src2(insn, ev), q, vm, vm2),
        q.src2(reg, ev2) == q,
        q.src2_reg(reg, ev2) == p.src2_reg(insn, ev),
    ensures
        alike(
            permute::permuted(p, insn, ev, odd, r, t),
            permute::permuted(q, reg, ev2, odd, r, t),
            vm,
            vm2,
        ),
{
    broadcast use lemma_alike;
    broadcast use lemma_alike_step;
    broadcast use lemma_alike_constant;

    reveal(permute::permuted);
    let m = insn.head.mnemonic;
    let imm = insn.head.imm8;
    if !permute::two_tables(m) && insn.ends_in_imm8() && (m == mn::VPERMQ || m == mn::VPERMPD || m
        == mn::VPERMILPD) {
        let w = if m == mn::VPERMILPD {
            permute::vpermilpd_indices(imm)
        } else {
            permute::vpermq_indices(imm)
        };
        let v = prog::dwords(w);
        lemma_ahead_constant(p, q, p.next_temp(), vm, vm2, v);
        assert(p.constant(v).src2(insn, ev).steps == p.src2(insn, ev).steps);
        lemma_ahead_read(p.constant(v), q.constant(v), insn, ev, reg, ev2, vm, vm2);
        assert(alike(
            p.permute_by(insn, ev, w, r, t),
            q.permute_by(reg, ev2, w, r, t),
            vm,
            vm2,
        ));
    }
}

/// A byte shift's sequence reads its operand after one temporary is taken.
proof fn lemma_byte_shift(insn: Decoded, ev: Ev, reg: Decoded, ev2: Ev, scratch: i32, vm: Vm)
    requires
        paired(insn, ev, reg, ev2, Prog::start(scratch, insn).temp().next_temp(), vm),
        insn.head.imm8 % 4 == 0,
    ensures
        ({
            let one = Prog::start(scratch, insn).temp();
            let vm2 = one.src2(insn, ev).meaning(seq![], vm);
            &&& alike(
                shuffle::byte_shift_outcome(insn, ev, scratch)->Thunk_0,
                shuffle::byte_shift_outcome(reg, ev2, scratch)->Thunk_0,
                vm,
                vm2,
            )
            &&& read_into(vm, vm2, one.next_temp(), one.kscr, MemOp::spec_of(insn)->0, ev)
        }),
{
    broadcast use lemma_alike;
    broadcast use lemma_alike_step;
    broadcast use lemma_alike_temp;

    let p0 = Prog::start(scratch, insn);
    let q0 = Prog::start(scratch, reg);
    let one = p0.temp();
    let q1 = q0.temp();
    let u = one.next_temp();
    let r = p0.next_temp();
    let vm2 = one.src2(insn, ev).meaning(seq![], vm);
    meaning::lemma_few_vregs(insn, insn.head.op_count as int);
    em::lemma_some_free(one.operands + one.temps);
    assert((one.operands + one.temps)[one.operands.len() as int] == r);
    lemma_ahead_start(insn, ev, reg, ev2, u, scratch, vm, vm2);
    lemma_ahead_temp(p0, q0, u, vm, vm2);
    lemma_ahead_read(one, q1, insn, ev, reg, ev2, vm, vm2);
    let n = insn.head.imm8 as int / 4;
    let b = one.src2_reg(insn, ev);
    let p = one.src2(insn, ev);
    let m = insn.head.mnemonic;
    if m == mn::VPSRLDQ || m == mn::VPSLLDQ {
        let d = if ev::dest_is_vvvv(ev) {
            ev.vvvv
        } else {
            ev.reg
        };
        let s = shuffle::rotation(
            if m == mn::VPSLLDQ {
                4 - n
            } else {
                n
            },
        );
        let lanes = if m == mn::VPSLLDQ {
            shuffle::bottom_lanes(n)
        } else {
            shuffle::top_lanes(n)
        };
        let (pa, qa) = (p.vpshufd(r, Rm::Reg(b), s, 0), q1.vpshufd(r, Rm::Reg(b), s, 0));
        assert(alike(pa, qa, vm, vm2));
        let (p3, q3) = if n >= 4 {
            (p.zero(r, 0, 0), q1.zero(r, 0, 0))
        } else {
            (pa.zero_lanes(r, lanes), qa.zero_lanes(r, lanes))
        };
        assert(alike(p3, q3, vm, vm2));
        lemma_alike_commit(p3, q3, vm, vm2, d, r, ev, ev2);
    } else if n >= 8 {
        let p3 = p.zero(r, 0, 0);
        let q3 = q1.zero(r, 0, 0);
        assert(alike(p3, q3, vm, vm2));
        lemma_alike_commit(p3, q3, vm, vm2, ev.reg, r, ev, ev2);
    } else if n >= 4 {
        let s = shuffle::rotation(n - 4);
        let lanes = shuffle::top_lanes(n - 4);
        let p3 = p.vpshufd(r, Rm::Reg(ev.vvvv), s, 0).zero_lanes(r, lanes);
        let q3 = q1.vpshufd(r, Rm::Reg(ev.vvvv), s, 0).zero_lanes(r, lanes);
        assert(alike(
            p.vpshufd(r, Rm::Reg(ev.vvvv), s, 0),
            q1.vpshufd(r, Rm::Reg(ev.vvvv), s, 0),
            vm,
            vm2,
        ));
        assert(alike(p3, q3, vm, vm2));
        lemma_alike_commit(p3, q3, vm, vm2, ev.reg, r, ev, ev2);
    } else {
        let t = p.next_temp();
        let s = shuffle::rotation(n);
        let lanes = shuffle::top_lanes(n);
        assert(alike(p.temp(), q1.temp(), vm, vm2));
        let p3 = p.temp().vpshufd(r, Rm::Reg(b), s, 0).vpshufd(
            t,
            Rm::Reg(ev.vvvv),
            s,
            0,
        ).mask_imm(lanes).vmov(r, Rm::Reg(t), p.kscr, 0);
        let q3 = q1.temp().vpshufd(r, Rm::Reg(b), s, 0).vpshufd(
            t,
            Rm::Reg(ev.vvvv),
            s,
            0,
        ).mask_imm(lanes).vmov(r, Rm::Reg(t), q1.kscr, 0);
        assert(alike(p3, q3, vm, vm2));
        lemma_alike_commit(p3, q3, vm, vm2, ev.reg, r, ev, ev2);
    }
}

/// A float compare with a predicate the card lacks.
proof fn lemma_compare(insn: Decoded, ev: Ev, reg: Decoded, ev2: Ev, scratch: i32, vm: Vm)
    requires
        paired(insn, ev, reg, ev2, Prog::start(scratch, insn).next_temp(), vm),
        ev.map == 1,
    ensures
        alike(
            mask::compare_outcome(insn, ev, scratch)->Thunk_0,
            mask::compare_outcome(reg, ev2, scratch)->Thunk_0,
            vm,
            staged(insn, ev, scratch, vm),
        ),
{
    broadcast use lemma_alike;
    broadcast use lemma_alike_step;

    lemma_first(insn, ev, reg, ev2, scratch, vm);
    let vm2 = staged(insn, ev, scratch, vm);
    let kd = ev.reg & 7;
    let full = ev.ll == 2;
    let s2 = Prog::start(scratch, insn).src2_reg(insn, ev);
    let vl = ev::vl_lanes(ev.ll, ev.w);
    let p0 = Prog::start(scratch, insn).src2(insn, ev);
    let q0 = Prog::start(scratch, reg);
    let p = if full {
        p0
    } else {
        p0.masked_lanes(vl, ev.aaa)
    };
    let q = if full {
        q0
    } else {
        q0.masked_lanes(vl, ev.aaa)
    };
    assert(alike(p, q, vm, vm2));
    match mask::predicate(insn.head.imm8) {
        mask::Predicate::False => {},
        mask::Predicate::True => {},
        mask::Predicate::Card(c, swap, second) => {
            let two = second is Some;
            let keff = if mask::clashes(ev, two) {
                p.kscr
            } else if full {
                ev.aaa
            } else {
                p.kscr
            };
            let (pk, qk) = (p.kept_mask(ev, two), q.kept_mask(ev2, two));
            assert(alike(pk, qk, vm, vm2));
            let p1 = pk.compare_either(kd, ev.vvvv, s2, c, swap, keff, ev.w);
            let q1 = qk.compare_either(kd, ev.vvvv, s2, c, swap, keff, ev.w);
            assert(alike(p1, q1, vm, vm2));
            match second {
                Some(t) => {
                    let p2 = p1.joined(kd, ev.vvvv, s2, t, keff, ev);
                    let q2 = q1.joined(kd, ev.vvvv, s2, t, keff, ev2);
                    let k2 = prog::free_mask(seq![kd, p.kscr, ev.aaa], 7);
                    let p3 = p1.step(Step::Rcx).vexk(0x93, 1, k2).compare_either(
                        k2,
                        ev.vvvv,
                        s2,
                        t.0,
                        t.1,
                        keff,
                        ev.w,
                    );
                    let q3 = q1.step(Step::Rcx).vexk(0x93, 1, k2).compare_either(
                        k2,
                        ev.vvvv,
                        s2,
                        t.0,
                        t.1,
                        keff,
                        ev.w,
                    );
                    assert(alike(p3, q3, vm, vm2));
                    assert(alike(p2, q2, vm, vm2));
                },
                None => {},
            }
        },
    }
}

/// A compare for equal bytes or words.
proof fn lemma_bytes(
    insn: Decoded,
    ev: Ev,
    reg: Decoded,
    ev2: Ev,
    words: bool,
    scratch: i32,
    vm: Vm,
)
    requires
        paired(insn, ev, reg, ev2, Prog::start(scratch, insn).next_temp(), vm),
    ensures
        alike(
            bytewise::equal_outcome(insn, ev, words, scratch)->Thunk_0,
            bytewise::equal_outcome(reg, ev2, words, scratch)->Thunk_0,
            vm,
            staged(insn, ev, scratch, vm),
        ),
{
    broadcast use lemma_alike;
    broadcast use lemma_alike_step;
    broadcast use lemma_alike_constant;

    lemma_taken(insn, ev, reg, ev2, scratch, vm);
    let vm2 = staged(insn, ev, scratch, vm);
    let s = Prog::start(scratch, insn).src2_reg(insn, ev);
    let p = Prog::start(scratch, insn).src2(insn, ev);
    let q = Prog::start(scratch, reg);
    let x = p.next_temp();
    let y = p.temp().next_temp();
    let kd = ev.reg & 7;
    let (p2, q2) = (p.temp().temp(), q.temp().temp());
    let (c, d) = (
        prog::splat32(bytewise::less_one(words)),
        prog::splat32(bytewise::top_bits(words)),
    );
    let i = p2.index_of(c);
    let (pa, qa) = (p2.constant(c), q2.constant(c));
    assert(alike(pa, qa, vm, vm2));
    let j = pa.index_of(d);
    let pb = pa.constant(d).i0f(0xEF, x, ev.vvvv, Rm::Reg(s), 0, 0).i0f(
        0xFE,
        y,
        x,
        Rm::Const(i),
        0,
        0,
    ).i0f(0xDF, y, x, Rm::Reg(y), 0, 0).mvex(2, 1, 0, 0x27, kd, y, Rm::Const(j), 0, 0, None);
    let qb = qa.constant(d).i0f(0xEF, x, ev.vvvv, Rm::Reg(s), 0, 0).i0f(
        0xFE,
        y,
        x,
        Rm::Const(i),
        0,
        0,
    ).i0f(0xDF, y, x, Rm::Reg(y), 0, 0).mvex(2, 1, 0, 0x27, kd, y, Rm::Const(j), 0, 0, None);
    assert(alike(pb, qb, vm, vm2));
    let vl = ev::vl_lanes(ev.ll, 0);
    assert(alike(pb.mask_imm(vl), qb.mask_imm(vl), vm, vm2));
}

/// vcvtpd2ps.
proof fn lemma_shorten(insn: Decoded, ev: Ev, reg: Decoded, ev2: Ev, scratch: i32, vm: Vm)
    requires
        paired(insn, ev, reg, ev2, Prog::start(scratch, insn).next_temp(), vm),
    ensures
        alike(
            convert::cvt_pd2ps_outcome(insn, ev, scratch)->Thunk_0,
            convert::cvt_pd2ps_outcome(reg, ev2, scratch)->Thunk_0,
            vm,
            staged(insn, ev, scratch, vm),
        ),
{
    broadcast use lemma_alike;
    broadcast use lemma_alike_step;

    lemma_taken(insn, ev, reg, ev2, scratch, vm);
    let vm2 = staged(insn, ev, scratch, vm);
    let s = Prog::start(scratch, insn).src2_reg(insn, ev);
    let p = Prog::start(scratch, insn).src2(insn, ev);
    let q = Prog::start(scratch, reg);
    let masked = ev.aaa != 0;
    let r = if masked {
        p.next_temp()
    } else {
        ev.reg
    };
    let (pa, qa) = if masked {
        (p.temp(), q.temp())
    } else {
        (p, q)
    };
    assert(p.result_temp(masked) == pa && q.result_temp(masked) == qa);
    let pb = pa.mvex(1, 1, 1, 0x5A, r, 0, Rm::Reg(s), 0, 0, None);
    let qb = qa.mvex(1, 1, 1, 0x5A, r, 0, Rm::Reg(s), 0, 0, None);
    assert(alike(pb, qb, vm, vm2));
    let lanes = !convert::half_dwords(ev.ll);
    let (pc, qc) = if ev.ll != 2 {
        (pb.zero_lanes(r, lanes), qb.zero_lanes(r, lanes))
    } else {
        (pb, qb)
    };
    assert(alike(pc, qc, vm, vm2));
    let ll = if ev.ll == 2 {
        1
    } else {
        0
    };
    let (e, e2) = ((Ev { ll, w: 0, ..ev }), (Ev { ll, w: 0, ..ev2 }));
    lemma_alike_commit(pc, qc, vm, vm2, ev.reg, r, e, e2);
    let (pd, qd) = (pc.commit(ev.reg, r, e), qc.commit(ev.reg, r, e2));
    assert(alike(pd.zero_lanes(ev.reg, 0xfffc), qd.zero_lanes(ev.reg, 0xfffc), vm, vm2));
}

/// An instruction of the table that the unaligned pair reads for.
proof fn lemma_generic(
    insn: Decoded,
    ev: Ev,
    reg: Decoded,
    ev2: Ev,
    c: Canon,
    scratch: i32,
    vm: Vm,
)
    requires
        paired(insn, ev, reg, ev2, Prog::start(scratch, insn).next_temp(), vm),
        table::staging(insn, ev) is Pair,
        !table::is_store(ev),
        table::generic_outcome(insn, ev, c, scratch) is Thunk,
    ensures
        alike(
            table::generic_outcome(insn, ev, c, scratch)->Thunk_0,
            table::generic_outcome(reg, ev2, c, scratch)->Thunk_0,
            vm,
            staged(insn, ev, scratch, vm),
        ),
{
    broadcast use lemma_alike;
    broadcast use lemma_alike_step;

    lemma_first(insn, ev, reg, ev2, scratch, vm);
    let vm2 = staged(insn, ev, scratch, vm);
    let p0 = Prog::start(scratch, insn);
    let u = p0.next_temp();
    let p = p0.src2(insn, ev);
    let q = Prog::start(scratch, reg);
    let st = table::staging(insn, ev);
    assert(p0.staged(st, ev.ll) == p);
    assert(table::staging(reg, ev2) == table::Staging::Direct(Rm::Reg(u), 0));
    let full = ev.ll == 2;
    let d = if ev::dest_is_vvvv(ev) {
        ev.vvvv
    } else {
        ev.reg
    };
    let keff = if full {
        ev.aaa
    } else {
        p.kscr
    };
    let vl = ev::vl_lanes(ev.ll, ev.w);
    let pm = if full {
        p
    } else {
        p.masked_lanes(vl, ev.aaa)
    };
    let qm = if full {
        q
    } else {
        q.masked_lanes(vl, ev.aaa)
    };
    assert(alike(pm, qm, vm, vm2));
    let rr = if ev::dest_is_vvvv(ev) {
        ev.reg & 7
    } else {
        ev.reg
    };
    let imm = table::immediate(insn, c);
    let p2 = pm.mvex(c.map, c.pp, c.w, c.op, rr, ev.vvvv, Rm::Reg(u), keff, 0, imm);
    let q2 = qm.mvex(c.map, c.pp, c.w, c.op, rr, ev.vvvv, Rm::Reg(u), keff, 0, imm);
    assert(alike(p2, q2, vm, vm2));
    let p3 = if ev.z {
        p2.step(Step::K).vexk(0x44, p2.kscr, keff).zero(d, p2.kscr, ev.w)
    } else {
        p2
    };
    let q3 = if ev.z {
        q2.step(Step::K).vexk(0x44, q2.kscr, keff).zero(d, q2.kscr, ev.w)
    } else {
        q2
    };
    assert(alike(p3, q3, vm, vm2));
    assert(alike(p2.settled(ev, d, keff), q2.settled(ev2, d, keff), vm, vm2));
}

proof fn lemma_alike_sqrt_pd_scaled(p: Prog, q: Prog, vm: Vm, vm2: Vm, a: u8, r: u8, e: u8, q1: u8, ex: u8)
    requires
        alike(p, q, vm, vm2),
    ensures
        alike(p.sqrt_pd_scaled(a, r, e, q1, ex), q.sqrt_pd_scaled(a, r, e, q1, ex), vm, vm2),
{
    broadcast use lemma_alike;
    broadcast use lemma_alike_step;
    broadcast use lemma_alike_constant;

    lemma_alike_dexp(p, q, vm, vm2, ex, a);
    let (p1, q2) = (p.dexp(ex, a), q.dexp(ex, a));
    let v = prog::splat32(1);
    let i = p1.index_of(v);
    let pa = p1.constant(v).i0f(0xFE, e, ex, Rm::Const(i), 0, 0).i0f(0xDB, e, e, Rm::Const(i), 0, 0);
    let qa = q2.constant(v).i0f(0xFE, e, ex, Rm::Const(i), 0, 0).i0f(0xDB, e, e, Rm::Const(i), 0, 0);
    assert(alike(pa, qa, vm, vm2));
    let w = prog::splat32(1023);
    let j = pa.index_of(w);
    let pb = pa.constant(w).i0f(0xFE, e, e, Rm::Const(j), 0, 0);
    let qb = qa.constant(w).i0f(0xFE, e, e, Rm::Const(j), 0, 0);
    assert(alike(pb, qb, vm, vm2));
    lemma_alike_dsetexp(pb, qb, vm, vm2, r, a, e, q1);
    let (pc, qc) = (pb.dsetexp(r, a, e, q1), qb.dsetexp(r, a, e, q1));
    let x = prog::splat32(2046);
    let k = pc.index_of(x);
    let pd = pc.constant(x).i0f(0xFA, q1, ex, Rm::Reg(e), 0, 0).i0f(
        0xFE,
        q1,
        q1,
        Rm::Const(k),
        0,
        0,
    ).shift_imm(4, q1, Rm::Reg(q1), 1, 0);
    let qd = qc.constant(x).i0f(0xFA, q1, ex, Rm::Reg(e), 0, 0).i0f(
        0xFE,
        q1,
        q1,
        Rm::Const(k),
        0,
        0,
    ).shift_imm(4, q1, Rm::Reg(q1), 1, 0);
    assert(alike(pd, qd, vm, vm2));
    lemma_alike_dpow2(pd, qd, vm, vm2, ex, q1);
}

/// The seed of a double's reciprocal square root.
spec fn root_seeded(p: Prog, r: u8, e: u8, q: u8) -> Prog {
    p.mvex(1, 1, 1, 0x5A, e, 0, Rm::Reg(r), 0, 0, None).mvex(
        2,
        1,
        0,
        0xCB,
        e,
        0,
        Rm::Reg(e),
        0,
        0,
        None,
    ).mvex(1, 0, 0, 0x5A, q, 0, Rm::Reg(e), 0, 0, None)
}

/// The root from its reciprocal.
spec fn root_refined(p: Prog, half: usize, r: u8, e: u8, q: u8, ex: u8) -> Prog {
    p.vmulp(e, r, Rm::Reg(q), 1).vmulp(q, q, Rm::Const(half), 1).fma(
        0xBC,
        r,
        e,
        Rm::Reg(e),
        1,
    ).fma(0xB8, e, r, Rm::Reg(q), 1).vmulp(e, e, Rm::Reg(ex), 1)
}

proof fn lemma_alike_sqrt_pd(p: Prog, q: Prog, vm: Vm, vm2: Vm, a: u8, r: u8, e: u8, q1: u8, ex: u8)
    requires
        alike(p, q, vm, vm2),
    ensures
        alike(p.sqrt_pd(a, r, e, q1, ex), q.sqrt_pd(a, r, e, q1, ex), vm, vm2),
{
    broadcast use lemma_alike;
    broadcast use lemma_alike_step;
    broadcast use lemma_alike_constant;

    reveal(Prog::sqrt_pd);
    lemma_alike_sqrt_pd_scaled(p, q, vm, vm2, a, r, e, q1, ex);
    let pa = root_seeded(p.sqrt_pd_scaled(a, r, e, q1, ex), r, e, q1);
    let qa = root_seeded(q.sqrt_pd_scaled(a, r, e, q1, ex), r, e, q1);
    assert(alike(pa, qa, vm, vm2));
    let (h, mh) = (prog::splat64(divide::F64_HALF), prog::splat64(divide::F64_MINUS_HALF));
    let i = pa.index_of(h);
    let (pb, qb) = (pa.constant(h), qa.constant(h));
    assert(alike(pb, qb, vm, vm2));
    let j = pb.index_of(mh);
    let (pc, qc) = (pb.constant(mh), qb.constant(mh));
    assert(alike(pc, qc, vm, vm2));
    lemma_alike_rsqrt_step_pd(pc, qc, vm, vm2, i, j, r, e, q1);
    let (pd, qd) = (pc.rsqrt_step_pd(i, j, r, e, q1), qc.rsqrt_step_pd(i, j, r, e, q1));
    lemma_alike_rsqrt_step_pd(pd, qd, vm, vm2, i, j, r, e, q1);
    let pe = root_refined(pd.rsqrt_step_pd(i, j, r, e, q1), i, r, e, q1, ex);
    let qe = root_refined(qd.rsqrt_step_pd(i, j, r, e, q1), i, r, e, q1, ex);
    assert(alike(pe, qe, vm, vm2));
    let (z, inf) = (prog::splat64(0), prog::splat64(divide::F64_INF));
    assert(alike(pe.constant(z), qe.constant(z), vm, vm2));
    assert(alike(pe.constant(z).constant(inf), qe.constant(z).constant(inf), vm, vm2));
}

proof fn lemma_scalef(insn: Decoded, ev: Ev, reg: Decoded, ev2: Ev, scratch: i32, vm: Vm)
    requires
        paired(insn, ev, reg, ev2, Prog::start(scratch, insn).next_temp(), vm),
    ensures
        alike(
            convert::scalef_outcome(insn, ev, scratch)->Thunk_0,
            convert::scalef_outcome(reg, ev2, scratch)->Thunk_0,
            vm,
            staged(insn, ev, scratch, vm),
        ),
{
    broadcast use lemma_alike;
    broadcast use lemma_alike_step;
    broadcast use lemma_alike_constant;

    lemma_taken(insn, ev, reg, ev2, scratch, vm);
    let vm2 = staged(insn, ev, scratch, vm);
    let s = Prog::start(scratch, insn).src2_reg(insn, ev);
    let p = Prog::start(scratch, insn).src2(insn, ev);
    let q = Prog::start(scratch, reg);
    let r = p.next_temp();
    let p1 = p.temp();
    let q1 = q.temp();
    let t = p1.next_temp();
    let p2 = p1.temp();
    let q2 = q1.temp();
    let p3 = p2.mvex(3, 1, 0, 0xCB, r, 0, Rm::Reg(s), 0, 0, Some(1)).mvex(
        2,
        1,
        0,
        0x84,
        t,
        ev.vvvv,
        Rm::Reg(r),
        0,
        0,
        None,
    );
    let q3 = q2.mvex(3, 1, 0, 0xCB, r, 0, Rm::Reg(s), 0, 0, Some(1)).mvex(
        2,
        1,
        0,
        0x84,
        t,
        ev.vvvv,
        Rm::Reg(r),
        0,
        0,
        None,
    );
    assert(alike(p3, q3, vm, vm2));
    lemma_alike_commit(p3, q3, vm, vm2, ev.reg, t, ev, ev2);
}

proof fn lemma_cvt_to_int(insn: Decoded, ev: Ev, reg: Decoded, ev2: Ev, scratch: i32, vm: Vm)
    requires
        paired(insn, ev, reg, ev2, Prog::start(scratch, insn).next_temp(), vm),
    ensures
        alike(
            convert::cvt_to_int_outcome(insn, ev, scratch)->Thunk_0,
            convert::cvt_to_int_outcome(reg, ev2, scratch)->Thunk_0,
            vm,
            staged(insn, ev, scratch, vm),
        ),
{
    broadcast use lemma_alike;
    broadcast use lemma_alike_step;
    broadcast use lemma_alike_constant;

    lemma_taken(insn, ev, reg, ev2, scratch, vm);
    let vm2 = staged(insn, ev, scratch, vm);
    let s = Prog::start(scratch, insn).src2_reg(insn, ev);
    let p = Prog::start(scratch, insn).src2(insn, ev);
    let q = Prog::start(scratch, reg);
    let r = p.next_temp();
    let p1 = p.temp();
    let q1 = q.temp();
    let t = p1.next_temp();
    let p2 = p1.temp();
    let q2 = q1.temp();
    let imm: u8 = if insn.head.mnemonic == mn::VCVTTPS2DQ {
        3
    } else {
        0
    };
    let pa = p1.mvex(3, 1, 0, 0xCB, r, 0, Rm::Reg(s), 0, 0, Some(imm));
    let qa = q1.mvex(3, 1, 0, 0xCB, r, 0, Rm::Reg(s), 0, 0, Some(imm));
    assert(alike(pa, qa, vm, vm2));
    let big = prog::splat32(convert::F32_TWO31);
    let i = pa.index_of(big);
    let pb = pa.constant(big).step(Step::K).compare(pa.kscr, s, Rm::Const(i), 5, 0, 0);
    let qb = qa.constant(big).step(Step::K).compare(qa.kscr, s, Rm::Const(i), 5, 0, 0);
    assert(alike(pb, qb, vm, vm2));
    let p3 = convert::indefinite_above(pa, r, s, false);
    let q3 = convert::indefinite_above(qa, r, s, false);
    assert(alike(p3, q3, vm, vm2));
    lemma_alike_commit(p3, q3, vm, vm2, ev.reg, r, ev, ev2);
}

proof fn lemma_rndscale(insn: Decoded, ev: Ev, reg: Decoded, ev2: Ev, scratch: i32, vm: Vm)
    requires
        paired(insn, ev, reg, ev2, Prog::start(scratch, insn).next_temp(), vm),
        insn.head.mnemonic != mn::VRNDSCALESS && insn.head.mnemonic != mn::VRNDSCALESD,
        convert::rndscale_outcome(insn, ev, scratch) is Thunk,
    ensures
        alike(
            convert::rndscale_outcome(insn, ev, scratch)->Thunk_0,
            convert::rndscale_outcome(reg, ev2, scratch)->Thunk_0,
            vm,
            staged(insn, ev, scratch, vm),
        ),
{
    broadcast use lemma_alike;
    broadcast use lemma_alike_step;
    broadcast use lemma_alike_constant;

    lemma_taken(insn, ev, reg, ev2, scratch, vm);
    let vm2 = staged(insn, ev, scratch, vm);
    let s = Prog::start(scratch, insn).src2_reg(insn, ev);
    let p = Prog::start(scratch, insn).src2(insn, ev);
    let q = Prog::start(scratch, reg);
    let r = p.next_temp();
    let p1 = p.temp();
    let q1 = q.temp();
    let t = p1.next_temp();
    let p2 = p1.temp();
    let q2 = q1.temp();
    let rc = Some(insn.head.imm8 & 3);
    let narrow = ev.aaa != 0 || ev.ll != 2;
    let d = if narrow {
        r
    } else {
        ev.reg
    };
    let (pa, qa) = if narrow {
        (p1, q1)
    } else {
        (p, q)
    };
    assert(alike(pa, qa, vm, vm2));
    assert(p.result_temp(narrow) == pa && q.result_temp(narrow) == qa);
    let p3 = pa.mvex(3, 1, ev.w, 0x52, d, 0, Rm::Reg(s), 0, 0, rc);
    let q3 = qa.mvex(3, 1, ev.w, 0x52, d, 0, Rm::Reg(s), 0, 0, rc);
    assert(alike(p3, q3, vm, vm2));
    lemma_alike_commit(p3, q3, vm, vm2, ev.reg, d, ev, ev2);
}

proof fn lemma_divsqrt(insn: Decoded, ev: Ev, reg: Decoded, ev2: Ev, scratch: i32, vm: Vm)
    requires
        paired(insn, ev, reg, ev2, Prog::start(scratch, insn).next_temp(), vm),
        !divide::is_scalar(insn.head.mnemonic),
    ensures
        alike(
            divide::divsqrt_outcome(insn, ev, scratch)->Thunk_0,
            divide::divsqrt_outcome(reg, ev2, scratch)->Thunk_0,
            vm,
            staged(insn, ev, scratch, vm),
        ),
{
    broadcast use lemma_alike;
    broadcast use lemma_alike_step;
    broadcast use lemma_alike_constant;

    lemma_taken(insn, ev, reg, ev2, scratch, vm);
    let vm2 = staged(insn, ev, scratch, vm);
    let s = Prog::start(scratch, insn).src2_reg(insn, ev);
    let p = Prog::start(scratch, insn).src2(insn, ev);
    let q = Prog::start(scratch, reg);
    let r = p.next_temp();
    let p1 = p.temp();
    let q1 = q.temp();
    let t = p1.next_temp();
    let p2 = p1.temp();
    let q2 = q1.temp();
    let m = insn.head.mnemonic;
    let e = t;
    let g = p2.next_temp();
    lemma_alike(p2, q2, vm, vm2);
    lemma_alike_temp(p2, q2, vm, vm2);
    lemma_alike_step(p2.temp(), q2.temp(), vm, vm2, Step::K);
    let p3 = p2.temp().step(Step::K);
    let q3 = q2.temp().step(Step::K);
    assert(alike(p3, q3, vm, vm2));
    let ex = p3.next_temp();
    let p4 = p3.temp();
    let q4 = q3.temp();
    lemma_alike(p3, q3, vm, vm2);
    lemma_alike_temp(p3, q3, vm, vm2);
    let v = ev.vvvv;
    if divide::is_division(m) && ev.w == 0 {
        lemma_alike_div_ps(p3, q3, vm, vm2, v, s, r, e, g);
        let (p5, q5) = (p3.div_ps(v, s, r, e, g), q3.div_ps(v, s, r, e, g));
        lemma_alike_commit(p5, q5, vm, vm2, ev.reg, g, ev, ev2);
    } else if divide::is_division(m) {
        lemma_alike_div_pd_finite(p4, q4, vm, vm2, v, s, r, e, g, ex);
        let (p5, q5) = (
            p4.div_pd_finite(v, s, r, e, g, ex),
            q4.div_pd_finite(v, s, r, e, g, ex),
        );
        lemma_alike_div_pd_special(p5, q5, vm, vm2, v, s, r, e, g, ex);
        let (p6, q6) = (
            p5.div_pd_special(v, s, r, e, g, ex),
            q5.div_pd_special(v, s, r, e, g, ex),
        );
        lemma_alike_commit(p6, q6, vm, vm2, ev.reg, e, ev, ev2);
    } else if ev.w == 0 {
        lemma_alike_sqrt_ps(p3, q3, vm, vm2, s, r, e, g);
        let (p5, q5) = (p3.sqrt_ps(s, r, e, g), q3.sqrt_ps(s, r, e, g));
        lemma_alike_commit(p5, q5, vm, vm2, ev.reg, g, ev, ev2);
    } else {
        lemma_alike_sqrt_pd(p4, q4, vm, vm2, s, r, e, g, ex);
        let (p5, q5) = (p4.sqrt_pd(s, r, e, g, ex), q4.sqrt_pd(s, r, e, g, ex));
        lemma_alike_commit(p5, q5, vm, vm2, ev.reg, e, ev, ev2);
    }
}

/// The sequence up to where the operand is read.
pub open spec fn before_operand(f: Form, scratch: i32, insn: Decoded) -> Prog {
    let p = Prog::start(scratch, insn);
    if f == Form::Permute {
        p.temp().temp()
    } else if f == Form::ByteShift {
        p.temp()
    } else {
        p
    }
}

/// Whether a sequence of the form reads a memory operand through
/// [`Prog::src2`].
pub open spec fn reads_operand(f: Form, insn: Decoded) -> bool {
    match f {
        Form::Insert => true,
        Form::Ternlog => insn.head.imm8 != 0 && insn.head.imm8 != 0xff,
        Form::Minmax => true,
        Form::Interleave => true,
        Form::Valignq => true,
        Form::ByteShift => true,
        Form::Permute => true,
        Form::ShiftQ => true,
        Form::AbsD => true,
        Form::Muludq => true,
        Form::CvtToInt => true,
        Form::CvtPd2ps => true,
        Form::Scalef => true,
        Form::Rndscale => insn.head.mnemonic != mn::VRNDSCALESS && insn.head.mnemonic
            != mn::VRNDSCALESD,
        Form::Divsqrt => !divide::is_scalar(insn.head.mnemonic),
        _ => false,
    }
}

/// Whether one outcome on `vm` is the other on `vm2`: the same refusal, or
/// sequences that come to the same.
pub open spec fn agree(a: Outcome, b: Outcome, vm: Vm, vm2: Vm) -> bool {
    match a {
        Outcome::Thunk(p) => b matches Outcome::Thunk(q) && p.meaning(p.consts, vm) == q.meaning(
            q.consts,
            vm2,
        ),
        Outcome::Refused(why) => b == Outcome::Refused(why),
        Outcome::InPlace(_) => false,
    }
}

/// A memory operand is read into a temporary, element by element, or one
/// element broadcast; from there on the sequence does what that of the same
/// instruction does with the temporary for its operand.
pub proof fn law_memory_operand(
    f: Form,
    insn: Decoded,
    bytes: Seq<u8>,
    ev: Ev,
    reg: Decoded,
    reg_bytes: Seq<u8>,
    ev2: Ev,
    scratch: i32,
    vm: Vm,
)
    requires
        reads_operand(f, insn),
        paired(insn, ev, reg, ev2, before_operand(f, scratch, insn).next_temp(), vm),
    ensures
        ({
            let at = before_operand(f, scratch, insn);
            let vm2 = at.src2(insn, ev).meaning(seq![], vm);
            &&& read_into(vm, vm2, at.next_temp(), at.kscr, MemOp::spec_of(insn)->0, ev)
            &&& agree(
                rewrite::special_outcome(f, insn, bytes, ev, scratch),
                rewrite::special_outcome(f, reg, reg_bytes, ev2, scratch),
                vm,
                vm2,
            )
        }),
{
    reveal(alike);
    match f {
        Form::Permute => lemma_permute(insn, ev, reg, ev2, scratch, vm),
        Form::ByteShift => {
            if insn.head.imm8 % 4 == 0 {
                lemma_byte_shift(insn, ev, reg, ev2, scratch, vm);
            } else {
                lemma_reading(before_operand(f, scratch, insn), insn, ev, vm, scratch);
            }
        },
        _ => {
            lemma_first(insn, ev, reg, ev2, scratch, vm);
            match f {
                Form::Insert => lemma_insert(insn, ev, reg, ev2, scratch, vm),
                Form::Ternlog => lemma_ternlog(insn, ev, reg, ev2, scratch, vm),
                Form::Minmax => lemma_minmax(insn, ev, reg, ev2, scratch, vm),
                Form::Interleave => {
                    if shuffle::interleave_outcome(insn, ev, scratch) is Thunk {
                        lemma_interleave(insn, ev, reg, ev2, scratch, vm);
                    }
                },
                Form::Valignq => lemma_valignq(insn, ev, reg, ev2, scratch, vm),
                Form::ShiftQ => lemma_shift_q(insn, ev, reg, ev2, scratch, vm),
                Form::AbsD => lemma_abs_d(insn, ev, reg, ev2, scratch, vm),
                Form::Muludq => lemma_muludq(insn, ev, reg, ev2, scratch, vm),
                Form::CvtToInt => lemma_cvt_to_int(insn, ev, reg, ev2, scratch, vm),
                Form::CvtPd2ps => lemma_shorten(insn, ev, reg, ev2, scratch, vm),
                Form::Scalef => lemma_scalef(insn, ev, reg, ev2, scratch, vm),
                Form::Rndscale => {
                    if convert::rndscale_outcome(insn, ev, scratch) is Thunk {
                        lemma_rndscale(insn, ev, reg, ev2, scratch, vm);
                    }
                },
                Form::Divsqrt => lemma_divsqrt(insn, ev, reg, ev2, scratch, vm),
                _ => {},
            }
        },
    }
}

/// The operand is read after one temporary is taken, too.
proof fn lemma_reading(p: Prog, insn: Decoded, ev: Ev, vm: Vm, scratch: i32)
    requires
        p == Prog::start(scratch, insn).temp(),
        MemOp::spec_of(insn) is Some,
        reads(vm, MemOp::spec_of(insn)->0, ev),
        insn.head.op_count <= 5,
        vm.wf(),
        ev.ll <= 2,
        ev.w <= 1,
    ensures
        read_into(
            vm,
            p.src2(insn, ev).meaning(seq![], vm),
            p.next_temp(),
            p.kscr,
            MemOp::spec_of(insn)->0,
            ev,
        ),
{
    laws::law_scratch_mask(scratch, insn);
    let p0 = Prog::start(scratch, insn);
    assert forall|c: Seq<Seq<u8>>| #[trigger] p.meaning(c, vm) == vm by {
        meaning::lemma_temp(p0, c, vm);
        assert(p0.meaning(c, vm) == vm);
    }
    lemma_src2(p, vm, insn, ev);
}

/// The same of a float compare with a predicate the card lacks.
pub proof fn law_memory_compare(
    insn: Decoded,
    ev: Ev,
    reg: Decoded,
    ev2: Ev,
    scratch: i32,
    vm: Vm,
)
    requires
        paired(insn, ev, reg, ev2, Prog::start(scratch, insn).next_temp(), vm),
        ev.map == 1,
    ensures
        ({
            let at = Prog::start(scratch, insn);
            let vm2 = staged(insn, ev, scratch, vm);
            &&& read_into(vm, vm2, at.next_temp(), at.kscr, MemOp::spec_of(insn)->0, ev)
            &&& agree(
                mask::compare_outcome(insn, ev, scratch),
                mask::compare_outcome(reg, ev2, scratch),
                vm,
                vm2,
            )
        }),
{
    reveal(alike);
    lemma_first(insn, ev, reg, ev2, scratch, vm);
    lemma_compare(insn, ev, reg, ev2, scratch, vm);
}

/// The same of a compare for equal bytes or words.
pub proof fn law_memory_bytes(
    insn: Decoded,
    ev: Ev,
    reg: Decoded,
    ev2: Ev,
    words: bool,
    scratch: i32,
    vm: Vm,
)
    requires
        paired(insn, ev, reg, ev2, Prog::start(scratch, insn).next_temp(), vm),
    ensures
        ({
            let at = Prog::start(scratch, insn);
            let vm2 = staged(insn, ev, scratch, vm);
            &&& read_into(vm, vm2, at.next_temp(), at.kscr, MemOp::spec_of(insn)->0, ev)
            &&& agree(
                bytewise::equal_outcome(insn, ev, words, scratch),
                bytewise::equal_outcome(reg, ev2, words, scratch),
                vm,
                vm2,
            )
        }),
{
    reveal(alike);
    lemma_first(insn, ev, reg, ev2, scratch, vm);
    lemma_bytes(insn, ev, reg, ev2, words, scratch, vm);
}

/// The same of an instruction of the table whose operand is neither broadcast
/// nor an aligned move's.
pub proof fn law_memory_generic(
    insn: Decoded,
    ev: Ev,
    reg: Decoded,
    ev2: Ev,
    c: Canon,
    scratch: i32,
    vm: Vm,
)
    requires
        paired(insn, ev, reg, ev2, Prog::start(scratch, insn).next_temp(), vm),
        table::staging(insn, ev) is Pair,
        !table::is_store(ev),
    ensures
        ({
            let at = Prog::start(scratch, insn);
            let vm2 = staged(insn, ev, scratch, vm);
            &&& read_into(vm, vm2, at.next_temp(), at.kscr, MemOp::spec_of(insn)->0, ev)
            &&& agree(
                table::generic_outcome(insn, ev, c, scratch),
                table::generic_outcome(reg, ev2, c, scratch),
                vm,
                vm2,
            )
        }),
{
    reveal(alike);
    lemma_first(insn, ev, reg, ev2, scratch, vm);
    if table::generic_outcome(insn, ev, c, scratch) is Thunk {
        lemma_generic(insn, ev, reg, ev2, c, scratch, vm);
    }
}

proof fn lemma_alike_recip_ps(p: Prog, q: Prog, vm: Vm, vm2: Vm, r: u8, b: u8, e: u8)
    requires
        alike(p, q, vm, vm2),
    ensures
        alike(p.recip_ps(r, b, e), q.recip_ps(r, b, e), vm, vm2),
{
    broadcast use lemma_alike;
    broadcast use lemma_alike_step;
    broadcast use lemma_alike_constant;

}

proof fn lemma_alike_dexp(p: Prog, q: Prog, vm: Vm, vm2: Vm, e: u8, x: u8)
    requires
        alike(p, q, vm, vm2),
    ensures
        alike(p.dexp(e, x), q.dexp(e, x), vm, vm2),
{
    broadcast use lemma_alike;
    broadcast use lemma_alike_step;
    broadcast use lemma_alike_constant;

}

proof fn lemma_alike_dsetexp(p: Prog, q: Prog, vm: Vm, vm2: Vm, out: u8, x: u8, expo: u8, t: u8)
    requires
        alike(p, q, vm, vm2),
    ensures
        alike(p.dsetexp(out, x, expo, t), q.dsetexp(out, x, expo, t), vm, vm2),
{
    broadcast use lemma_alike;
    broadcast use lemma_alike_step;
    broadcast use lemma_alike_constant;

}

proof fn lemma_alike_dpow2(p: Prog, q: Prog, vm: Vm, vm2: Vm, out: u8, expo: u8)
    requires
        alike(p, q, vm, vm2),
    ensures
        alike(p.dpow2(out, expo), q.dpow2(out, expo), vm, vm2),
{
    broadcast use lemma_alike;
    broadcast use lemma_alike_step;
    broadcast use lemma_alike_constant;

}

proof fn lemma_alike_recip_step_pd(p: Prog, q: Prog, vm: Vm, vm2: Vm, one: usize, r: u8, e: u8, q1: u8)
    requires
        alike(p, q, vm, vm2),
    ensures
        alike(p.recip_step_pd(one, r, e, q1), q.recip_step_pd(one, r, e, q1), vm, vm2),
{
    broadcast use lemma_alike;
    broadcast use lemma_alike_step;
    broadcast use lemma_alike_constant;

}

proof fn lemma_alike_rsqrt_step_pd(p: Prog, q: Prog, vm: Vm, vm2: Vm, half: usize, mhalf: usize, r: u8, e: u8, q1: u8)
    requires
        alike(p, q, vm, vm2),
    ensures
        alike(p.rsqrt_step_pd(half, mhalf, r, e, q1), q.rsqrt_step_pd(half, mhalf, r, e, q1), vm, vm2),
{
    broadcast use lemma_alike;
    broadcast use lemma_alike_step;
    broadcast use lemma_alike_constant;

}

proof fn lemma_alike_div_ps(p: Prog, q: Prog, vm: Vm, vm2: Vm, a: u8, b: u8, r: u8, e: u8, q1: u8)
    requires
        alike(p, q, vm, vm2),
    ensures
        alike(p.div_ps(a, b, r, e, q1), q.div_ps(a, b, r, e, q1), vm, vm2),
{
    broadcast use lemma_alike;
    broadcast use lemma_alike_step;
    broadcast use lemma_alike_constant;

    reveal(Prog::div_ps);
    lemma_alike_recip_ps(p, q, vm, vm2, r, b, e);
    let pa = p.recip_ps(r, b, e).vmulp(q1, a, Rm::Reg(r), 0).vmov(e, Rm::Reg(a), 0, 0).fma(
        0xBC,
        e,
        b,
        Rm::Reg(q1),
        0,
    ).fma(0xB8, q1, e, Rm::Reg(r), 0).mvex(2, 1, 0, 0xCA, r, 0, Rm::Reg(b), 0, 0, None).vmulp(
        r,
        a,
        Rm::Reg(r),
        0,
    );
    let qa = q.recip_ps(r, b, e).vmulp(q1, a, Rm::Reg(r), 0).vmov(e, Rm::Reg(a), 0, 0).fma(
        0xBC,
        e,
        b,
        Rm::Reg(q1),
        0,
    ).fma(0xB8, q1, e, Rm::Reg(r), 0).mvex(2, 1, 0, 0xCA, r, 0, Rm::Reg(b), 0, 0, None).vmulp(
        r,
        a,
        Rm::Reg(r),
        0,
    );
    assert(alike(pa, qa, vm, vm2));
    let v = prog::splat32(0x7fff_ffff);
    let i = pa.index_of(v);
    let pb = pa.constant(v).i0f(0xDB, e, b, Rm::Const(i), 0, 0);
    let qb = qa.constant(v).i0f(0xDB, e, b, Rm::Const(i), 0, 0);
    assert(alike(pb, qb, vm, vm2));
}

proof fn lemma_alike_div_pd_finite(p: Prog, q: Prog, vm: Vm, vm2: Vm, a: u8, b: u8, r: u8, e: u8, q1: u8, ex: u8)
    requires
        alike(p, q, vm, vm2),
    ensures
        alike(p.div_pd_finite(a, b, r, e, q1, ex), q.div_pd_finite(a, b, r, e, q1, ex), vm, vm2),
{
    broadcast use lemma_alike;
    broadcast use lemma_alike_step;
    broadcast use lemma_alike_constant;

    reveal(Prog::div_pd_finite);
    lemma_alike_dexp(p, q, vm, vm2, ex, b);
    let (p1, q2) = (p.dexp(ex, b), q.dexp(ex, b));
    let v = prog::splat32(1023);
    let i = p1.index_of(v);
    let pa = p1.constant(v).vmov(e, Rm::Const(i), 0, 0);
    let qa = q2.constant(v).vmov(e, Rm::Const(i), 0, 0);
    assert(alike(pa, qa, vm, vm2));
    lemma_alike_dsetexp(pa, qa, vm, vm2, r, b, e, q1);
    let (pb, qb) = (pa.dsetexp(r, b, e, q1), qa.dsetexp(r, b, e, q1));
    let w = prog::splat32(2046);
    let j = pb.index_of(w);
    let pc = pb.constant(w).vmov(e, Rm::Const(j), 0, 0).i0f(0xFA, e, e, Rm::Reg(ex), 0, 0);
    let qc = qb.constant(w).vmov(e, Rm::Const(j), 0, 0).i0f(0xFA, e, e, Rm::Reg(ex), 0, 0);
    assert(alike(pc, qc, vm, vm2));
    lemma_alike_dpow2(pc, qc, vm, vm2, ex, e);
    let (pd, qd) = (seeded(pc.dpow2(ex, e), a, r, e, q1, ex), seeded(qc.dpow2(ex, e), a, r, e, q1, ex));
    assert(alike(pd, qd, vm, vm2));
    let one = prog::splat64(divide::F64_ONE);
    let o = pd.index_of(one);
    let (pe, qe) = (pd.constant(one), qd.constant(one));
    assert(alike(pe, qe, vm, vm2));
    lemma_alike_recip_step_pd(pe, qe, vm, vm2, o, r, e, q1);
    lemma_alike_recip_step_pd(
        pe.recip_step_pd(o, r, e, q1),
        qe.recip_step_pd(o, r, e, q1),
        vm,
        vm2,
        o,
        r,
        e,
        q1,
    );
}

/// The seed of a double's reciprocal.
spec fn seeded(p: Prog, a: u8, r: u8, e: u8, q: u8, ex: u8) -> Prog {
    p.vmulp(ex, ex, Rm::Reg(a), 1).mvex(1, 1, 1, 0x5A, e, 0, Rm::Reg(r), 0, 0, None).mvex(
        2,
        1,
        0,
        0xCA,
        e,
        0,
        Rm::Reg(e),
        0,
        0,
        None,
    ).mvex(1, 0, 0, 0x5A, q, 0, Rm::Reg(e), 0, 0, None)
}

proof fn lemma_alike_div_pd_special(p: Prog, q: Prog, vm: Vm, vm2: Vm, a: u8, b: u8, r: u8, e: u8, q1: u8, ex: u8)
    requires
        alike(p, q, vm, vm2),
    ensures
        alike(p.div_pd_special(a, b, r, e, q1, ex), q.div_pd_special(a, b, r, e, q1, ex), vm, vm2),
{
    broadcast use lemma_alike;
    broadcast use lemma_alike_step;
    broadcast use lemma_alike_constant;

    reveal(Prog::div_pd_special);
    let (c1, c2, c3, c4, c5) = (
        prog::splat64(0x7fff_ffff_ffff_ffff),
        prog::splat64(0x8000_0000_0000_0000),
        prog::splat64(0),
        prog::splat64(divide::F64_INF),
        prog::splat64(0xfff8_0000_0000_0000),
    );
    assert(alike(p.constant(c1), q.constant(c1), vm, vm2));
    assert(alike(p.constant(c1).constant(c2), q.constant(c1).constant(c2), vm, vm2));
    let (p3, q3) = (p.constant(c1).constant(c2).constant(c3), q.constant(c1).constant(c2).constant(c3));
    assert(alike(p3, q3, vm, vm2));
    assert(alike(p3.constant(c4), q3.constant(c4), vm, vm2));
    assert(alike(p3.constant(c4).constant(c5), q3.constant(c4).constant(c5), vm, vm2));
}

proof fn lemma_alike_sqrt_ps(p: Prog, q: Prog, vm: Vm, vm2: Vm, a: u8, r: u8, e: u8, q1: u8)
    requires
        alike(p, q, vm, vm2),
    ensures
        alike(p.sqrt_ps(a, r, e, q1), q.sqrt_ps(a, r, e, q1), vm, vm2),
{
    broadcast use lemma_alike;
    broadcast use lemma_alike_step;
    broadcast use lemma_alike_constant;

    reveal(Prog::sqrt_ps);
    let pa = p.mvex(2, 1, 0, 0xCB, r, 0, Rm::Reg(a), 0, 0, None);
    let qa = q.mvex(2, 1, 0, 0xCB, r, 0, Rm::Reg(a), 0, 0, None);
    assert(alike(pa, qa, vm, vm2));
    let (h, t) = (prog::splat32(divide::F32_HALF), prog::splat32(divide::F32_THREE_HALVES));
    assert(alike(pa.constant(h), qa.constant(h), vm, vm2));
    assert(alike(pa.constant(h).constant(t), qa.constant(h).constant(t), vm, vm2));
}

} // verus!
