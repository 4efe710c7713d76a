//! What the rewritten scalar instructions and the permutes by an immediate
//! compute, in the model of [`crate::xlate::meaning`].
use crate::xlate::arith;
use crate::xlate::code::{Mvex, Rm};
use crate::xlate::ev::Ev;
use crate::xlate::insn::Decoded;
use crate::xlate::meaning;
use crate::xlate::meaning::Vm;
use crate::xlate::mnemonic as mn;
use crate::xlate::permute;
use crate::xlate::prog;
use crate::xlate::prog::Prog;
use crate::xlate::results;
use vstd::prelude::*;

verus! {

/// What AVX-512 leaves in the destination of a scalar instruction: the
/// result in lane 0, where the mask has it, the rest of the low 128 bits
/// from the first source, zero above.
pub open spec fn scalar_written(
    ev: Ev,
    old: Seq<u32>,
    first: Seq<u32>,
    new: Seq<u32>,
    mask: u16,
) -> Seq<u32> {
    Seq::new(
        16,
        |i: int|
            if i >= 4 {
                0u32
            } else if i >= (if ev.w == 0 { 1int } else { 2 }) {
                first[i]
            } else if ev.aaa == 0 || meaning::bit(mask, 0) {
                new[i]
            } else {
                old[i]
            },
    )
}

/// The rest of a scalar result, after lane 0.
pub proof fn lemma_scalar_rest(p: Prog, consts: Seq<Seq<u8>>, vm: Vm, d: u8, s1: u8, w: u8)
    requires
        p.meaning(consts, vm).wf(),
        w <= 1,
        p.kscr != 0,
    ensures
        ({
            let before = p.meaning(consts, vm);
            let q = p.scalar_rest(d, s1, w);
            let after = q.meaning(consts, vm);
            &&& meaning::only(before, after, d, p.kscr)
            &&& forall|i: int|
                0 <= i < 16 ==> #[trigger] after.z[d][i] == (if i >= 4 {
                    0
                } else if i >= (if w == 0 { 1int } else { 2 }) {
                    before.z[s1][i]
                } else {
                    before.z[d][i]
                })
            &&& q.consts == p.consts && q.temps == p.temps && q.kscr == p.kscr
        }),
{
    broadcast use meaning::lemma_run;

    let before = p.meaning(consts, vm);
    let m: u16 = if w == 0 { 0xe } else { 0x2 };
    meaning::lemma_mask_imm(p, consts, vm, m);
    let p1 = if d != s1 {
        p.mask_imm(m).vmov(d, Rm::Reg(s1), p.kscr, w)
    } else {
        p
    };
    let mid = p1.meaning(consts, vm);
    assert(meaning::only(before, mid, d, p.kscr));
    assert forall|i: int| 0 <= i < 4 implies #[trigger] mid.z[d][i] == (if i >= (if w == 0 {
        1int
    } else {
        2
    }) {
        before.z[s1][i]
    } else {
        before.z[d][i]
    }) by {
        meaning::lemma_lanes(i as u16);
        meaning::lemma_lanes((i / 2) as u16);
    }
    meaning::lemma_mask_imm(p1, consts, vm, 0xfff0);
    meaning::lemma_zero(p1.mask_imm(0xfff0), consts, vm, d, p.kscr, 0);
    let after = p.scalar_rest(d, s1, w).meaning(consts, vm);
    assert forall|i: int| 0 <= i < 16 implies #[trigger] after.z[d][i] == (if i >= 4 {
        0
    } else {
        mid.z[d][i]
    }) by {
        meaning::lemma_lanes(i as u16);
    }
}

/// Scalar arithmetic, its second source a register or memory, writes lane 0 of
/// what the card's full form computes, whatever that is, as AVX-512 writes a
/// scalar result.
#[verifier::rlimit(40)]
pub proof fn law_scalar_op(insn: Decoded, ev: Ev, scratch: i32, vm: Vm)
    requires
        meaning::shaped(insn, ev),
        meaning::at_hand(vm, insn, ev),
        vm.wf(),
        arith::scalar_op_outcome(insn, ev, scratch) is Thunk,
        !Vm::uses_mask(scalar_form(ev)),
        !(ev.map == 1 && ev.op == 0x72),
    ensures
        ({
            let p = arith::scalar_op_outcome(insn, ev, scratch)->Thunk_0;
            let after = p.meaning(p.consts, vm);
            &&& meaning::apart(vm, after, p.temps, ev.reg, p.kscr)
            &&& after.z[ev.reg] == scalar_written(
                ev,
                vm.z[ev.reg],
                vm.z[ev.vvvv],
                vm.computed(
                    scalar_form(ev),
                    vm.z[ev.reg],
                    vm.z[ev.vvvv],
                    meaning::second(vm, insn, ev),
                ),
                vm.k[ev.aaa],
            )
        }),
{
    broadcast use meaning::lemma_run;

    let p0 = Prog::start(scratch, insn);
    let fin = arith::scalar_op_outcome(insn, ev, scratch)->Thunk_0;
    let consts = fin.consts;
    let m = scalar_form(ev);
    let d = ev.reg;
    meaning::lemma_begin(scratch, insn, ev);
    assert(p0.meaning(consts, vm) == vm);
    meaning::lemma_mask_imm(p0, consts, vm, 1);
    let p1 = p0.masked_lanes(1, ev.aaa);
    let before = p1.meaning(consts, vm);
    assert(before.z == vm.z && before.alu == vm.alu && before.ok && before.mem == vm.mem
        && before.addr == vm.addr);
    let (rm, sss) = meaning::second_rm(insn, ev);
    let p2 = p1.mvex(ev.map, m.pp, ev.w, ev.op, d, ev.vvvv, rm, p0.kscr, sss, None);
    meaning::lemma_second(p1, consts, vm, insn, ev, m, p0.kscr);
    let v = vm.computed(m, vm.z[d], vm.z[ev.vvvv], meaning::second(vm, insn, ev));
    assert(meaning::second(before, insn, ev) =~= meaning::second(vm, insn, ev));
    let mid = p2.meaning(consts, vm);
    assert(mid.z[d] == meaning::merged(vm.z[d], v, p0.kscr, before.k[p0.kscr], ev.w));
    lemma_scalar_rest(p2, consts, vm, d, ev.vvvv, ev.w);
    let after = fin.meaning(consts, vm);
    let new = scalar_written(ev, vm.z[d], vm.z[ev.vvvv], v, vm.k[ev.aaa]);
    assert forall|i: int| 0 <= i < 16 implies #[trigger] after.z[d][i] == new[i] by {
        let j: int = if ev.w == 0 { i } else { i / 2 };
        meaning::lemma_lanes(j as u16);
        meaning::lemma_bits(1, vm.k[ev.aaa], j as u16);
    }
    assert(after.z[d] =~= new);
}

/// The card's full form of a scalar instruction, without its mask.
pub open spec fn scalar_form(ev: Ev) -> Mvex {
    Mvex {
        map: ev.map,
        pp: if ev.map == 1 { ev.w } else { 1 },
        w: ev.w,
        op: ev.op,
        reg: ev.reg,
        vvvv: ev.vvvv,
        rm: Rm::Reg(ev.rm),
        k: 0,
        sss: 0,
        imm: None,
    }
}

/// A scalar move between registers takes lane 0 of the second source, and
/// writes it as AVX-512 writes a scalar result.
#[verifier::rlimit(30)]
pub proof fn law_scalar_move(insn: Decoded, ev: Ev, scratch: i32, vm: Vm)
    requires
        meaning::between(insn, ev),
        vm.wf(),
        arith::scalar_move_outcome(insn, ev, scratch) is Thunk,
    ensures
        ({
            let p = arith::scalar_move_outcome(insn, ev, scratch)->Thunk_0;
            let after = p.meaning(p.consts, vm);
            &&& meaning::apart(vm, after, p.temps, ev.reg, p.kscr)
            &&& after.z[ev.reg] == scalar_written(
                ev,
                vm.z[ev.reg],
                vm.z[ev.vvvv],
                vm.z[ev.rm],
                vm.k[ev.aaa],
            )
        }),
{
    broadcast use meaning::lemma_run;

    let p0 = Prog::start(scratch, insn);
    let fin = arith::scalar_move_outcome(insn, ev, scratch)->Thunk_0;
    let consts = fin.consts;
    let d = ev.reg;
    meaning::lemma_start(scratch, insn, ev);
    assert(p0.meaning(consts, vm) == vm);
    meaning::lemma_mask_imm(p0, consts, vm, 1);
    let p1 = p0.masked_lanes(1, ev.aaa);
    let before = p1.meaning(consts, vm);
    assert(before.z == vm.z && before.ok);
    let p2 = if d != ev.rm {
        p1.vmov(d, Rm::Reg(ev.rm), p0.kscr, ev.w)
    } else {
        p1
    };
    let mid = p2.meaning(consts, vm);
    lemma_scalar_rest(p2, consts, vm, d, ev.vvvv, ev.w);
    let after = fin.meaning(consts, vm);
    let new = scalar_written(ev, vm.z[d], vm.z[ev.vvvv], vm.z[ev.rm], vm.k[ev.aaa]);
    assert forall|i: int| 0 <= i < 16 implies #[trigger] after.z[d][i] == new[i] by {
        let j: int = if ev.w == 0 { i } else { i / 2 };
        meaning::lemma_lanes(j as u16);
        meaning::lemma_bits(1, vm.k[ev.aaa], j as u16);
    }
    assert(after.z[d] =~= new);
}

/// The dwords that a permute by an immediate takes.
pub open spec fn by_immediate(m: u16, imm: u8) -> Seq<u32> {
    if m == mn::VPERMILPD {
        permute::vpermilpd_indices(imm)
    } else {
        permute::vpermq_indices(imm)
    }
}

proof fn lemma_indices(m: u16, imm: u8, i: int)
    requires
        0 <= i < 16,
    ensures
        by_immediate(m, imm)[i] < 16,
{
    meaning::lemma_fields(((i / 2) % 4) as u8, imm);
    let s = ((2 * (i / 4) + (i / 2) % 2) as u8);
    results::lemma_place(2, imm >> s, 0);
}

/// Dwords taken by a constant, through a temporary.
proof fn lemma_by_constant(
    p: Prog,
    consts: Seq<Seq<u8>>,
    vm: Vm,
    v: Seq<u32>,
    c: usize,
    r: u8,
    t: u8,
    s: u8,
)
    requires
        p.meaning(consts, vm).wf(),
        v.len() == 16,
        forall|i: int| 0 <= i < 16 ==> #[trigger] v[i] < 16,
        c < consts.len(),
        meaning::words(consts[c as int]) == v,
        t != s,
    ensures
        ({
            let before = p.meaning(consts, vm);
            let after = p.vmov(t, Rm::Const(c), 0, 0).vpermd(r, t, Rm::Reg(s), 0).meaning(
                consts,
                vm,
            );
            &&& after == (Vm { z: after.z, ..before })
            &&& after.wf()
            &&& after.z[r] == Seq::new(16, |i: int| before.z[s][v[i] as int])
            &&& forall|x: u8| x != r && x != t ==> #[trigger] after.z[x] == before.z[x]
        }),
{
    let before = p.meaning(consts, vm);
    let p1 = p.vmov(t, Rm::Const(c), 0, 0);
    meaning::lemma_vmov(p, consts, vm, t, Rm::Const(c), 0);
    meaning::lemma_vpermd(p1, consts, vm, r, t, s);
    assert(meaning::picked(v, before.z[s]) =~= Seq::new(
        16,
        |i: int| before.z[s][v[i] as int],
    ));
}

/// vpermq, vpermpd and vpermilpd by an immediate take the qwords that its
/// fields name, within each half or each block, and write them as AVX-512
/// does.
pub proof fn law_permute_by_immediate(insn: Decoded, ev: Ev, scratch: i32, vm: Vm)
    requires
        meaning::between(insn, ev),
        meaning::named(insn, ev.reg),
        meaning::named(insn, ev.rm),
        vm.wf(),
        insn.ends_in_imm8(),
        ({
            let m = insn.head.mnemonic;
            m == mn::VPERMQ || m == mn::VPERMPD || m == mn::VPERMILPD
        }),
    ensures
        ({
            let m = insn.head.mnemonic;
            let p = permute::permute_outcome(insn, ev, scratch)->Thunk_0;
            let after = p.meaning(p.consts, vm);
            &&& permute::permute_outcome(insn, ev, scratch) is Thunk
            &&& meaning::apart(vm, after, p.temps, ev.reg, p.kscr)
            &&& after.z[ev.reg] == meaning::written(
                ev,
                vm.z[ev.reg],
                Seq::new(
                    16,
                    |i: int| vm.z[ev.rm][by_immediate(m, insn.head.imm8)[i] as int],
                ),
                vm.k[ev.aaa],
            )
        }),
{
    reveal(permute::permuted);
    let m = insn.head.mnemonic;
    let imm = insn.head.imm8;
    let v = by_immediate(m, imm);
    let p0 = Prog::start(scratch, insn);
    let fin = permute::permute_outcome(insn, ev, scratch)->Thunk_0;
    let consts = fin.consts;
    meaning::lemma_start(scratch, insn, ev);
    meaning::lemma_temp(p0, consts, vm);
    meaning::lemma_temp(p0.temp(), consts, vm);
    let r = p0.next_temp();
    let t = p0.temp().next_temp();
    let p1 = p0.temp().temp();
    let p2 = p1.constant(prog::dwords(permute::lane_parity()));
    let c = p2.index_of(prog::dwords(v));
    let p3 = p2.constant(prog::dwords(v));
    let q = p3.vmov(t, Rm::Const(c), 0, 0).vpermd(r, t, Rm::Reg(ev.rm), 0);
    assert(fin == q.commit(ev.reg, r, ev));
    meaning::lemma_commit_takes(q, ev.reg, r, ev);
    meaning::lemma_found(p2.consts, prog::dwords(v), 0);
    assert(p2.consts =~= seq![prog::dwords(permute::lane_parity())]);
    assert(consts == p3.consts);
    assert(c < consts.len() && consts[c as int] == prog::dwords(v));
    assert(p3.meaning(consts, vm) == vm);
    meaning::lemma_words(v);
    assert forall|i: int| 0 <= i < 16 implies #[trigger] v[i] < 16 by {
        lemma_indices(m, imm, i);
    }
    lemma_by_constant(p3, consts, vm, v, c, r, t, ev.rm);
    let new = Seq::new(16, |i: int| vm.z[ev.rm][v[i] as int]);
    meaning::law_commit(q, consts, vm, ev.reg, r, ev);
    assert(fin.temps[0] == r && fin.temps[1] == t);
}

} // verus!
