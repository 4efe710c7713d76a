//! What a sequence spares: whatever a step writes besides the instruction's
//! destination was saved by a step before it, so that the restores at the end
//! give it back.
use crate::xlate::arith;
use crate::xlate::bytewise;
use crate::xlate::code::{MemOp, Mvex, Rm, S_CW, S_CW2, S_GPR, S_XFER};
use crate::xlate::compare_results;
use crate::xlate::convert;
use crate::xlate::divide;
use crate::xlate::ev;
use crate::xlate::ev::{Ev, Outcome};
use crate::xlate::insn;
use crate::xlate::insn::Decoded;
use crate::xlate::lane_results;
use crate::xlate::meaning::Vm;
use crate::xlate::mnemonic as mn;
use crate::xlate::permute;
use crate::xlate::prog;
use crate::xlate::prog::{Prog, Step};
use crate::xlate::results;
use crate::xlate::rewrite;
use crate::xlate::rewrite::Form;
use crate::xlate::shuffle;
use crate::xlate::table;
use crate::xlate::table::Canon;
use vstd::prelude::*;

verus! {

/// What has been saved so far.
#[verifier::ext_equal]
pub struct Saved {
    pub rax: bool,
    pub rcx: bool,
    /// The scratch mask register.
    pub k: bool,
    pub flags: bool,
    /// The vector registers taken as temporaries.
    pub temps: Set<u8>,
}

impl Saved {
    pub open spec fn nothing() -> Saved {
        Saved { rax: false, rcx: false, k: false, flags: false, temps: Set::empty() }
    }

    /// After one more step. The scratch mask and the flags are saved through
    /// rax, which is saved first.
    pub open spec fn after(self, s: Step) -> Saved {
        match s {
            Step::Rax => Saved { rax: true, ..self },
            Step::Rcx => Saved { rcx: true, ..self },
            Step::K => Saved { rax: true, k: true, ..self },
            Step::Flags => Saved { rax: true, flags: true, ..self },
            Step::Temp(z) => Saved { temps: self.temps.insert(z), ..self },
            _ => self,
        }
    }
}

/// What the steps have saved.
pub open spec fn saved(steps: Seq<Step>) -> Saved
    decreases steps.len(),
{
    if steps.len() == 0 {
        Saved::nothing()
    } else {
        saved(steps.drop_last()).after(steps.last())
    }
}

/// Where the result of an instruction goes: a vector register, a mask
/// register, both or neither.
pub struct Place {
    pub z: Option<u8>,
    pub k: Option<u8>,
}

/// Whether the instruction writes memory and no register.
pub open spec fn stores(m: Mvex) -> bool {
    ||| m.map == 1 && m.op == 0x29
    ||| m.map == 2 && m.pp == 1 && (m.op == 0xD0 || m.op == 0xD1 || m.op == 0xD4 || m.op == 0xD5)
}

/// Whether the instruction writes a mask register: a compare or a test.
pub open spec fn marks(m: Mvex) -> bool {
    Vm::uses_mask(m) && !(m.map == 2 && (m.op == 0x64 || m.op == 0x65))
}

/// Whether general instructions write eax alone, and no flags: a move into
/// it, an extension into rax, or the prefix of an instruction to follow.
pub open spec fn moves_only(b: Seq<u8>) -> bool {
    ||| b.len() == 0
    ||| b[0] == 0xb8
    ||| b.len() == 2 && b[0] == 0x8b
    ||| b.len() == 3 && (b[1] == 0x8b || b[1] == 0x63)
}

/// Whether what a step writes is its place or was saved. `or ah, 12` writes
/// the flags besides eax; the other general instructions that are not moves
/// write ecx too.
pub open spec fn permitted(sv: Saved, s: Step, kscr: u8, at: Place) -> bool {
    match s {
        Step::Mvex(m) => if stores(m) {
            true
        } else if marks(m) {
            (m.reg == kscr && sv.k) || at.k == Some(m.reg)
        } else {
            at.z == Some(Vm::dest(m)) || sv.temps.contains(Vm::dest(m))
        },
        Step::VexK { op, reg, rm } => if op == 0x93 {
            (reg == 0 && sv.rax) || (reg == 1 && sv.rcx)
        } else {
            (reg == kscr && sv.k) || at.k == Some(reg)
        },
        Step::Gpr { store, .. } => store,
        Step::Raw(b) => sv.rax && (moves_only(b) || (sv.flags && (b == seq![0x80u8, 0xcc, 0x0c]
            || sv.rcx))),
        Step::Legacy { .. } => sv.rax,
        Step::FsOp { opcodes, .. } => opcodes == seq![0x0fu8, 0xb7] ==> sv.rax,
        _ => true,
    }
}

/// Whether every step writes its place or what was saved before it.
pub open spec fn careful(steps: Seq<Step>, kscr: u8, at: Place) -> bool
    decreases steps.len(),
{
    steps.len() > 0 ==> careful(steps.drop_last(), kscr, at) && permitted(
        saved(steps.drop_last()),
        steps.last(),
        kscr,
        at,
    )
}

/// Whether the temporaries a sequence reloads are those it saved.
pub open spec fn reloads_temps(p: Prog) -> bool {
    forall|r: u8| #[trigger] saved(p.steps).temps.contains(r) == p.temps.contains(r)
}

#[verifier::opaque]
spec fn tidy(p: Prog, at: Place) -> bool {
    careful(p.steps, p.kscr, at) && reloads_temps(p)
}

#[verifier::opaque]
spec fn sv(p: Prog) -> Saved {
    saved(p.steps)
}

broadcast proof fn lemma_sv_step(p: Prog, s: Step)
    ensures
        #[trigger] sv(p.step(s)) == sv(p).after(s),
{
    reveal(sv);
    assert(p.steps.push(s).drop_last() =~= p.steps);
}

broadcast proof fn lemma_sv_temp(p: Prog)
    ensures
        #[trigger] sv(p.temp()) == sv(p).after(Step::Temp(p.next_temp())),
{
    lemma_sv_step(p, Step::Temp(p.next_temp()));
    reveal(sv);
}

broadcast proof fn lemma_sv_constant(p: Prog, c: Seq<u8>)
    ensures
        #[trigger] sv(p.constant(c)) == sv(p),
{
    reveal(sv);
}

broadcast proof fn lemma_tidy_step(p: Prog, s: Step, at: Place)
    requires
        tidy(p, at),
        permitted(sv(p), s, p.kscr, at),
        !(s is Temp),
    ensures
        #[trigger] tidy(p.step(s), at),
{
    reveal(sv);
    reveal(tidy);
    assert(p.steps.push(s).drop_last() =~= p.steps);
}

broadcast proof fn lemma_tidy_temp(p: Prog, at: Place)
    requires
        tidy(p, at),
    ensures
        #[trigger] tidy(p.temp(), at),
{
    reveal(tidy);
    let z = p.next_temp();
    let steps = p.steps.push(Step::Temp(z));
    assert(steps.drop_last() =~= p.steps);
    assert(p.temps.push(z).last() == z);
    assert forall|r: u8| #[trigger] saved(steps).temps.contains(r) == p.temps.push(z).contains(
        r,
    ) by {
        assert(saved(p.steps).temps.contains(r) == p.temps.contains(r));
        if p.temps.contains(r) {
            let i = choose|i: int| 0 <= i < p.temps.len() && p.temps[i] == r;
            assert(p.temps.push(z)[i] == r);
        }
        if p.temps.push(z).contains(r) && r != z {
            let i = choose|i: int| 0 <= i < p.temps.push(z).len() && p.temps.push(z)[i] == r;
            assert(p.temps[i] == r);
        }
        assert(p.temps.push(z)[p.temps.len() as int] == z);
    }
}

broadcast proof fn lemma_tidy_constant(p: Prog, c: Seq<u8>, at: Place)
    requires
        tidy(p, at),
    ensures
        #[trigger] tidy(p.constant(c), at),
{
    reveal(tidy);
}

broadcast group group_tidy {
    lemma_sv_step,
    lemma_sv_temp,
    lemma_sv_constant,
    lemma_tidy_step,
    lemma_tidy_temp,
    lemma_tidy_constant,
}

proof fn lemma_tidy_start(scratch: i32, insn: Decoded, at: Place)
    ensures
        tidy(Prog::start(scratch, insn), at),
        sv(Prog::start(scratch, insn)) == Saved::nothing(),
{
    reveal(tidy);
    reveal(sv);
}

/// A mask set goes into the scratch mask, which is saved.
proof fn lemma_mask_imm(p: Prog, m: u16, at: Place)
    requires
        tidy(p, at),
    ensures
        tidy(p.mask_imm(m), at),
        sv(p.mask_imm(m)) == (Saved { rax: true, k: true, ..sv(p) }),
{
    broadcast use group_tidy;

}

/// The registers in use by a sequence, as its temporaries or its place.
spec fn free_to(p: Prog, r: u8, at: Place) -> bool {
    at.z == Some(r) || sv(p).temps.contains(r)
}

/// Whether a sequence went on with the same registers saved, and perhaps the
/// scratch mask.
spec fn went_on(p: Prog, q: Prog) -> bool {
    &&& q.kscr == p.kscr
    &&& sv(q).temps == sv(p).temps
    &&& sv(p).k ==> sv(q).k
    &&& sv(p).rax ==> sv(q).rax
}

proof fn lemma_zero_lanes(p: Prog, d: u8, m: u16, at: Place)
    requires
        tidy(p, at),
        free_to(p, d, at),
    ensures
        tidy(p.zero_lanes(d, m), at),
        went_on(p, p.zero_lanes(d, m)),
{
    broadcast use group_tidy;

    lemma_mask_imm(p, m, at);
}

/// A result written.
proof fn lemma_commit(p: Prog, d: u8, r: u8, ev: Ev, at: Place)
    requires
        tidy(p, at),
        at.z == Some(d),
    ensures
        tidy(p.commit(d, r, ev), at),
        went_on(p, p.commit(d, r, ev)),
{
    broadcast use group_tidy;

    reveal(Prog::commit);
    lemma_mask_imm(p, ev::vl_lanes(ev.ll, ev.w), at);
    let full = ev.ll == 2;
    let k = if full && ev.aaa == 0 {
        0
    } else {
        p.kscr
    };
    let masked = if full && ev.aaa == 0 {
        p
    } else if ev.aaa != 0 {
        p.mask_imm(ev::vl_lanes(ev.ll, ev.w)).vexk(0x41, k, ev.aaa)
    } else {
        p.mask_imm(ev::vl_lanes(ev.ll, ev.w))
    };
    assert(tidy(masked, at) && went_on(p, masked));
    let moved = if r != d {
        masked.vmov(d, Rm::Reg(r), k, ev.w)
    } else {
        masked
    };
    assert(tidy(moved, at) && went_on(p, moved));
    let zeroed = if ev.z && ev.aaa != 0 {
        moved.step(Step::K).vexk(0x44, p.kscr, k).zero(d, p.kscr, ev.w)
    } else {
        moved
    };
    assert(tidy(zeroed, at) && went_on(p, zeroed));
    let written = if r != d || !full || ev.aaa != 0 {
        zeroed
    } else {
        p
    };
    lemma_zero_lanes(written, d, ev::upper(ev.ll), at);
}

/// A broadcast from memory or the scratch area writes its register.
proof fn lemma_broadcast_load(p: Prog, d: u8, m: Rm, k: u8, w: u8, at: Place)
    requires
        tidy(p, at),
        free_to(p, d, at),
    ensures
        tidy(p.broadcast_load(d, m, k, w), at),
        went_on(p, p.broadcast_load(d, m, k, w)),
{
    broadcast use group_tidy;

    let op = 0x18u8 | w;
    assert(op != 0x27 && op != 0x64 && op != 0x65 && op != 0xD0 && op != 0xD1 && op != 0xD4 && op
        != 0xD5) by (bit_vector)
        requires
            op == 0x18u8 | w,
    ;
}

/// The second source read.
proof fn lemma_src2(p: Prog, insn: Decoded, ev: Ev, at: Place)
    requires
        tidy(p, at),
    ensures
        tidy(p.src2(insn, ev), at),
        p.src2(insn, ev).kscr == p.kscr,
        sv(p).temps.subset_of(sv(p.src2(insn, ev)).temps),
        sv(p).k ==> sv(p.src2(insn, ev)).k,
{
    broadcast use group_tidy;

    lemma_mask_imm(p.temp(), ev::vl_lanes(ev.ll, 0), at);
    assert(tidy(p.temp(), at));
}

proof fn lemma_masked_lanes(p: Prog, m: u16, aaa: u8, at: Place)
    requires
        tidy(p, at),
    ensures
        tidy(p.masked_lanes(m, aaa), at),
        went_on(p, p.masked_lanes(m, aaa)),
        sv(p.masked_lanes(m, aaa)).k,
{
    broadcast use group_tidy;

    lemma_mask_imm(p, m, at);
}

proof fn lemma_scalar_rest(p: Prog, d: u8, s1: u8, w: u8, at: Place)
    requires
        tidy(p, at),
        at.z == Some(d),
    ensures
        tidy(p.scalar_rest(d, s1, w), at),
        went_on(p, p.scalar_rest(d, s1, w)),
{
    broadcast use group_tidy;

    let m: u16 = if w == 0 {
        0xe
    } else {
        0x2
    };
    lemma_mask_imm(p, m, at);
    let q = if d != s1 {
        p.mask_imm(m).vmov(d, Rm::Reg(s1), p.kscr, w)
    } else {
        p
    };
    assert(tidy(q, at) && went_on(p, q));
    lemma_zero_lanes(q, d, 0xfff0, at);
}

proof fn lemma_scalar_result(p: Prog, d: u8, r: u8, s1: u8, w: u8, at: Place)
    requires
        tidy(p, at),
        at.z == Some(d),
    ensures
        tidy(p.scalar_result(d, r, s1, w), at),
        went_on(p, p.scalar_result(d, r, s1, w)),
{
    broadcast use group_tidy;

    lemma_mask_imm(p, 1, at);
    let q = p.mask_imm(1).vmov(d, Rm::Reg(r), p.kscr, w);
    assert(tidy(q, at) && went_on(p, q));
    lemma_scalar_rest(q, d, s1, w, at);
}

proof fn lemma_bool2(p: Prog, t: u8, b: u8, c: u8, table: u8, w: u8, at: Place)
    requires
        tidy(p, at),
        free_to(p, t, at),
    ensures
        tidy(p.bool2(t, b, c, table, w), at),
        went_on(p, p.bool2(t, b, c, table, w)),
{
    broadcast use group_tidy;

    reveal(Prog::bool2);
}

proof fn lemma_shift_right_q(p: Prog, r: u8, s: u8, t: u8, n: u8, arith: bool, at: Place)
    requires
        tidy(p, at),
        free_to(p, r, at),
        free_to(p, t, at),
    ensures
        tidy(p.shift_right_q(r, s, t, n, arith), at),
        went_on(p, p.shift_right_q(r, s, t, n, arith)),
{
    broadcast use group_tidy;

}

proof fn lemma_shift_left_q(p: Prog, r: u8, s: u8, t: u8, n: u8, at: Place)
    requires
        tidy(p, at),
        free_to(p, r, at),
        free_to(p, t, at),
    ensures
        tidy(p.shift_left_q(r, s, t, n), at),
        went_on(p, p.shift_left_q(r, s, t, n)),
{
    broadcast use group_tidy;

}

proof fn lemma_qmask(p: Prog, k: u8, limit: u16, at: Place)
    requires
        tidy(p, at),
    ensures
        tidy(p.qmask_to_dmask(k, limit), at),
        went_on(p, p.qmask_to_dmask(k, limit)),
        sv(p.qmask_to_dmask(k, limit)).k,
{
    broadcast use group_tidy;

}

proof fn lemma_recip_ps(p: Prog, r: u8, b: u8, e: u8, at: Place)
    requires
        tidy(p, at),
        free_to(p, r, at),
        free_to(p, e, at),
    ensures
        tidy(p.recip_ps(r, b, e), at),
        went_on(p, p.recip_ps(r, b, e)),
{
    broadcast use group_tidy;

}

proof fn lemma_dexp(p: Prog, e: u8, x: u8, at: Place)
    requires
        tidy(p, at),
        free_to(p, e, at),
    ensures
        tidy(p.dexp(e, x), at),
        went_on(p, p.dexp(e, x)),
{
    broadcast use group_tidy;

}

proof fn lemma_dsetexp(p: Prog, out: u8, x: u8, expo: u8, t: u8, at: Place)
    requires
        tidy(p, at),
        free_to(p, out, at),
        free_to(p, t, at),
    ensures
        tidy(p.dsetexp(out, x, expo, t), at),
        went_on(p, p.dsetexp(out, x, expo, t)),
{
    broadcast use group_tidy;

}

proof fn lemma_dpow2(p: Prog, out: u8, expo: u8, at: Place)
    requires
        tidy(p, at),
        free_to(p, out, at),
    ensures
        tidy(p.dpow2(out, expo), at),
        went_on(p, p.dpow2(out, expo)),
{
    broadcast use group_tidy;

}

proof fn lemma_recip_step_pd(p: Prog, one: usize, r: u8, e: u8, q: u8, at: Place)
    requires
        tidy(p, at),
        free_to(p, e, at),
        free_to(p, q, at),
    ensures
        tidy(p.recip_step_pd(one, r, e, q), at),
        went_on(p, p.recip_step_pd(one, r, e, q)),
{
    broadcast use group_tidy;

}

proof fn lemma_rsqrt_step_pd(p: Prog, half: usize, mhalf: usize, r: u8, e: u8, q: u8, at: Place)
    requires
        tidy(p, at),
        free_to(p, e, at),
        free_to(p, q, at),
    ensures
        tidy(p.rsqrt_step_pd(half, mhalf, r, e, q), at),
        went_on(p, p.rsqrt_step_pd(half, mhalf, r, e, q)),
{
    broadcast use group_tidy;

}

proof fn lemma_div_ps(p: Prog, a: u8, b: u8, r: u8, e: u8, q: u8, at: Place)
    requires
        tidy(p, at),
        free_to(p, r, at),
        free_to(p, e, at),
        free_to(p, q, at),
        sv(p).k,
    ensures
        tidy(p.div_ps(a, b, r, e, q), at),
        went_on(p, p.div_ps(a, b, r, e, q)),
{
    broadcast use group_tidy;

    reveal(Prog::div_ps);
    lemma_recip_ps(p, r, b, e, at);
}

proof fn lemma_div_pd_finite(p: Prog, a: u8, b: u8, r: u8, e: u8, q: u8, ex: u8, at: Place)
    requires
        tidy(p, at),
        free_to(p, r, at),
        free_to(p, e, at),
        free_to(p, q, at),
        free_to(p, ex, at),
        sv(p).k,
    ensures
        tidy(p.div_pd_finite(a, b, r, e, q, ex), at),
        went_on(p, p.div_pd_finite(a, b, r, e, q, ex)),
{
    broadcast use group_tidy;

    reveal(Prog::div_pd_finite);
    let p1 = p.dexp(ex, b);
    lemma_dexp(p, ex, b, at);
    let c1023 = p1.index_of(prog::splat32(1023));
    let p2 = p1.constant(prog::splat32(1023)).vmov(e, Rm::Const(c1023), 0, 0);
    assert(tidy(p2, at) && went_on(p, p2));
    let p3 = p2.dsetexp(r, b, e, q);
    lemma_dsetexp(p2, r, b, e, q, at);
    let c2046 = p3.index_of(prog::splat32(2046));
    let p4 = p3.constant(prog::splat32(2046)).vmov(e, Rm::Const(c2046), 0, 0).i0f(
        0xFA,
        e,
        e,
        Rm::Reg(ex),
        0,
        0,
    );
    assert(tidy(p4, at) && went_on(p, p4));
    let p5 = p4.dpow2(ex, e);
    lemma_dpow2(p4, ex, e, at);
    let p6 = p5.vmulp(ex, ex, Rm::Reg(a), 1).mvex(
        1,
        1,
        1,
        0x5A,
        e,
        0,
        Rm::Reg(r),
        0,
        0,
        None,
    ).mvex(2, 1, 0, 0xCA, e, 0, Rm::Reg(e), 0, 0, None).mvex(
        1,
        0,
        0,
        0x5A,
        q,
        0,
        Rm::Reg(e),
        0,
        0,
        None,
    );
    assert(tidy(p6, at) && went_on(p, p6));
    let one = p6.index_of(prog::splat64(divide::F64_ONE));
    let p7 = p6.constant(prog::splat64(divide::F64_ONE));
    assert(tidy(p7, at) && went_on(p, p7));
    lemma_recip_step_pd(p7, one, r, e, q, at);
    let p8 = p7.recip_step_pd(one, r, e, q);
    lemma_recip_step_pd(p8, one, r, e, q, at);
}

proof fn lemma_div_pd_special(p: Prog, a: u8, b: u8, r: u8, e: u8, q: u8, ex: u8, at: Place)
    requires
        tidy(p, at),
        free_to(p, r, at),
        free_to(p, e, at),
        free_to(p, q, at),
        free_to(p, ex, at),
        sv(p).k,
    ensures
        tidy(p.div_pd_special(a, b, r, e, q, ex), at),
        went_on(p, p.div_pd_special(a, b, r, e, q, ex)),
{
    broadcast use group_tidy;

    reveal(Prog::div_pd_special);
}

proof fn lemma_sqrt_ps(p: Prog, a: u8, r: u8, e: u8, q: u8, at: Place)
    requires
        tidy(p, at),
        free_to(p, r, at),
        free_to(p, e, at),
        free_to(p, q, at),
        sv(p).k,
    ensures
        tidy(p.sqrt_ps(a, r, e, q), at),
        went_on(p, p.sqrt_ps(a, r, e, q)),
{
    broadcast use group_tidy;

    reveal(Prog::sqrt_ps);
}

proof fn lemma_sqrt_pd_scaled(p: Prog, a: u8, r: u8, e: u8, q: u8, ex: u8, at: Place)
    requires
        tidy(p, at),
        free_to(p, r, at),
        free_to(p, e, at),
        free_to(p, q, at),
        free_to(p, ex, at),
        sv(p).k,
    ensures
        tidy(p.sqrt_pd_scaled(a, r, e, q, ex), at),
        went_on(p, p.sqrt_pd_scaled(a, r, e, q, ex)),
{
    broadcast use group_tidy;

    let p1 = p.dexp(ex, a);
    lemma_dexp(p, ex, a, at);
    let one = p1.index_of(prog::splat32(1));
    let p2 = p1.constant(prog::splat32(1)).i0f(0xFE, e, ex, Rm::Const(one), 0, 0).i0f(
        0xDB,
        e,
        e,
        Rm::Const(one),
        0,
        0,
    );
    assert(tidy(p2, at) && went_on(p, p2));
    let c1023 = p2.index_of(prog::splat32(1023));
    let p3 = p2.constant(prog::splat32(1023)).i0f(0xFE, e, e, Rm::Const(c1023), 0, 0);
    assert(tidy(p3, at) && went_on(p, p3));
    let p4 = p3.dsetexp(r, a, e, q);
    lemma_dsetexp(p3, r, a, e, q, at);
    let c2046 = p4.index_of(prog::splat32(2046));
    let p5 = p4.constant(prog::splat32(2046)).i0f(0xFA, q, ex, Rm::Reg(e), 0, 0).i0f(
        0xFE,
        q,
        q,
        Rm::Const(c2046),
        0,
        0,
    ).shift_imm(4, q, Rm::Reg(q), 1, 0);
    assert(tidy(p5, at) && went_on(p, p5));
    lemma_dpow2(p5, ex, q, at);
}

proof fn lemma_sqrt_pd(p: Prog, a: u8, r: u8, e: u8, q: u8, ex: u8, at: Place)
    requires
        tidy(p, at),
        free_to(p, r, at),
        free_to(p, e, at),
        free_to(p, q, at),
        free_to(p, ex, at),
        sv(p).k,
    ensures
        tidy(p.sqrt_pd(a, r, e, q, ex), at),
        went_on(p, p.sqrt_pd(a, r, e, q, ex)),
{
    broadcast use group_tidy;

    reveal(Prog::sqrt_pd);
    lemma_sqrt_pd_scaled(p, a, r, e, q, ex, at);
    let p1 = p.sqrt_pd_scaled(a, r, e, q, ex).mvex(
        1,
        1,
        1,
        0x5A,
        e,
        0,
        Rm::Reg(r),
        0,
        0,
        None,
    ).mvex(2, 1, 0, 0xCB, e, 0, Rm::Reg(e), 0, 0, None).mvex(
        1,
        0,
        0,
        0x5A,
        q,
        0,
        Rm::Reg(e),
        0,
        0,
        None,
    );
    assert(tidy(p1, at) && went_on(p, p1));
    let half = p1.index_of(prog::splat64(divide::F64_HALF));
    let p2 = p1.constant(prog::splat64(divide::F64_HALF));
    let mhalf = p2.index_of(prog::splat64(divide::F64_MINUS_HALF));
    let p3 = p2.constant(prog::splat64(divide::F64_MINUS_HALF));
    assert(tidy(p3, at) && went_on(p, p3));
    lemma_rsqrt_step_pd(p3, half, mhalf, r, e, q, at);
    let p4 = p3.rsqrt_step_pd(half, mhalf, r, e, q);
    lemma_rsqrt_step_pd(p4, half, mhalf, r, e, q, at);
}

proof fn spares_shift_q(insn: Decoded, ev: Ev, scratch: i32, at: Place)
    requires
        at.z == Some(ev.vvvv),
    ensures
        arith::shift_q_outcome(insn, ev, scratch) matches Outcome::Thunk(p) ==> tidy(p, at),
{
    broadcast use group_tidy;

    lemma_tidy_start(scratch, insn, at);
    let p0 = Prog::start(scratch, insn);
    lemma_src2(p0, insn, ev, at);
    let s = p0.src2_reg(insn, ev);
    let p = p0.src2(insn, ev);
    let r = p.next_temp();
    let p1 = p.temp();
    let t = p1.next_temp();
    let p2 = p1.temp();
    assert(tidy(p1, at) && sv(p1).temps.contains(r));
    assert(tidy(p2, at) && sv(p2).temps.contains(r) && sv(p2).temps.contains(t));
    let m = insn.head.mnemonic;
    let n = insn.head.imm8;
    if m == mn::VPSRLQ || m == mn::VPSRAQ {
        lemma_shift_right_q(p2, r, s, t, n, m == mn::VPSRAQ, at);
        lemma_commit(
            p2.shift_right_q(r, s, t, n, m == mn::VPSRAQ),
            ev.vvvv,
            r,
            (Ev { w: 1, ..ev }),
            at,
        );
    } else {
        lemma_shift_left_q(p2, r, s, t, n, at);
        lemma_commit(p2.shift_left_q(r, s, t, n), ev.vvvv, r, (Ev { w: 1, ..ev }), at);
    }
}

proof fn spares_abs_d(insn: Decoded, ev: Ev, scratch: i32, at: Place)
    requires
        at.z == Some(ev.reg),
    ensures
        arith::abs_d_outcome(insn, ev, scratch) matches Outcome::Thunk(p) ==> tidy(p, at),
{
    broadcast use group_tidy;

    lemma_tidy_start(scratch, insn, at);
    let p0 = Prog::start(scratch, insn);
    lemma_src2(p0, insn, ev, at);
    let s = p0.src2_reg(insn, ev);
    let p = p0.src2(insn, ev);
    let r = p.next_temp();
    let p1 = p.temp();
    let t = p1.next_temp();
    let p2 = p1.temp();
    assert(tidy(p1, at) && sv(p1).temps.contains(r));
    assert(tidy(p2, at) && sv(p2).temps.contains(r) && sv(p2).temps.contains(t));
    let p3 = p2.shift_imm(4, t, Rm::Reg(s), 31, 0).i0f(0xEF, r, s, Rm::Reg(t), 0, 0).i0f(
        0xFA,
        r,
        r,
        Rm::Reg(t),
        0,
        0,
    );
    assert(tidy(p3, at));
    lemma_commit(p3, ev.reg, r, ev, at);
}

proof fn spares_muludq(insn: Decoded, ev: Ev, scratch: i32, at: Place)
    requires
        at.z == Some(ev.reg),
    ensures
        arith::muludq_outcome(insn, ev, scratch) matches Outcome::Thunk(p) ==> tidy(p, at),
{
    broadcast use group_tidy;

    lemma_tidy_start(scratch, insn, at);
    let p0 = Prog::start(scratch, insn);
    lemma_src2(p0, insn, ev, at);
    let s = p0.src2_reg(insn, ev);
    let p = p0.src2(insn, ev);
    let r = p.next_temp();
    let p1 = p.temp();
    let t = p1.next_temp();
    let p2 = p1.temp();
    assert(tidy(p1, at) && sv(p1).temps.contains(r));
    assert(tidy(p2, at) && sv(p2).temps.contains(r) && sv(p2).temps.contains(t));
    let p3 = p2.i38(0x40, r, ev.vvvv, Rm::Reg(s), 0).i38(0x86, t, ev.vvvv, Rm::Reg(s), 0).vpshufd(
        t,
        Rm::Reg(t),
        0xa0,
        0,
    ).mask_imm(arith::ODD).vmov(r, Rm::Reg(t), p.kscr, 0);
    assert(tidy(p3, at));
    lemma_commit(p3, ev.reg, r, (Ev { w: 1, ..ev }), at);
}

proof fn spares_minmax(insn: Decoded, ev: Ev, scratch: i32, at: Place)
    requires
        at.z == Some(ev.reg),
    ensures
        arith::minmax_outcome(insn, ev, scratch) matches Outcome::Thunk(p) ==> tidy(p, at),
{
    broadcast use group_tidy;

    lemma_tidy_start(scratch, insn, at);
    let p0 = Prog::start(scratch, insn);
    lemma_src2(p0, insn, ev, at);
    let s = p0.src2_reg(insn, ev);
    let p = p0.src2(insn, ev);
    let r = p.next_temp();
    let p1 = p.temp();
    assert(tidy(p1, at) && sv(p1).temps.contains(r));
    let is_max = insn.head.mnemonic == mn::VMAXPS || insn.head.mnemonic == mn::VMAXPD;
    let p3 = p1.pick(r, ev.vvvv, s, is_max, ev.w);
    assert(tidy(p3, at));
    lemma_commit(p3, ev.reg, r, ev, at);
}

proof fn spares_interleave(insn: Decoded, ev: Ev, scratch: i32, at: Place)
    requires
        at.z == Some(ev.reg),
    ensures
        shuffle::interleave_outcome(insn, ev, scratch) matches Outcome::Thunk(p) ==> tidy(p, at),
{
    broadcast use group_tidy;

    lemma_tidy_start(scratch, insn, at);
    let p0 = Prog::start(scratch, insn);
    lemma_src2(p0, insn, ev, at);
    let s = p0.src2_reg(insn, ev);
    let p = p0.src2(insn, ev);
    let r = p.next_temp();
    let p1 = p.temp();
    let t = p1.next_temp();
    let p2 = p1.temp();
    assert(tidy(p1, at) && sv(p1).temps.contains(r));
    assert(tidy(p2, at) && sv(p2).temps.contains(r) && sv(p2).temps.contains(t));
    let sh = shuffle::interleaving(insn.head.mnemonic, insn.head.imm8);
    let p3 = p2.vpshufd(r, Rm::Reg(ev.vvvv), sh.0, 0).vpshufd(t, Rm::Reg(s), sh.1, 0).mask_imm(
        sh.2,
    ).vmov(r, Rm::Reg(t), p1.kscr, 0);
    assert(tidy(p3, at));
    lemma_commit(p3, ev.reg, r, ev, at);
}

proof fn spares_valignq(insn: Decoded, ev: Ev, scratch: i32, at: Place)
    requires
        at.z == Some(ev.reg),
    ensures
        shuffle::valignq_outcome(insn, ev, scratch) matches Outcome::Thunk(p) ==> tidy(p, at),
{
    broadcast use group_tidy;

    lemma_tidy_start(scratch, insn, at);
    let p0 = Prog::start(scratch, insn);
    lemma_src2(p0, insn, ev, at);
    let s = p0.src2_reg(insn, ev);
    let p = p0.src2(insn, ev);
    let r = p.next_temp();
    let p1 = p.temp();
    let t = p1.next_temp();
    let p2 = p1.temp();
    assert(tidy(p1, at) && sv(p1).temps.contains(r));
    assert(tidy(p2, at) && sv(p2).temps.contains(r) && sv(p2).temps.contains(t));
    let n = (shuffle::qwords_shifted(ev.ll, insn.head.imm8) * 2) as u8;
    if ev.ll == 2 {
        let p3 = p1.valignd(r, ev.vvvv, Rm::Reg(s), n, 0);
        assert(tidy(p3, at));
        lemma_commit(p3, ev.reg, r, ev, at);
    } else {
        let lanes: u16 = if ev.ll == 1 {
            0xff00
        } else {
            0x00f0
        };
        let imm: u8 = if ev.ll == 1 {
            0x4e
        } else {
            0x00
        };
        let p3 = p2.vmov(t, Rm::Reg(s), 0, 0).mask_imm(lanes).vpermf32x4(
            t,
            Rm::Reg(ev.vvvv),
            imm,
            p1.kscr,
        ).valignd(r, t, Rm::Reg(t), n, 0);
        assert(tidy(p3, at));
        lemma_commit(p3, ev.reg, r, ev, at);
    }
}

proof fn spares_insert(insn: Decoded, ev: Ev, scratch: i32, at: Place)
    requires
        at.z == Some(ev.reg),
    ensures
        shuffle::insert_outcome(insn, ev, scratch) matches Outcome::Thunk(p) ==> tidy(p, at),
{
    broadcast use group_tidy;

    lemma_tidy_start(scratch, insn, at);
    let p0 = Prog::start(scratch, insn);
    lemma_src2(p0, insn, ev, at);
    let s = p0.src2_reg(insn, ev);
    let p = p0.src2(insn, ev);
    let half = shuffle::inserts_half(insn.head.mnemonic);
    let narrow = ev.reg == s || ev.aaa != 0;
    let r = p.result_reg(narrow, ev.reg);
    let p1 = p.result_temp(narrow);
    assert(tidy(p1, at) && free_to(p1, r, at));
    let p2 = if r != ev.vvvv {
        p1.vmov(r, Rm::Reg(ev.vvvv), 0, 0)
    } else {
        p1
    };
    assert(tidy(p2, at) && free_to(p2, r, at));
    let imm: u8 = if half {
        0x44
    } else {
        0x00
    };
    let p3 = p2.mask_imm(shuffle::insert_lanes(half, ev.ll, insn.head.imm8)).vpermf32x4(
        r,
        Rm::Reg(s),
        imm,
        p2.kscr,
    );
    assert(tidy(p3, at));
    lemma_commit(p3, ev.reg, r, ev, at);
}

proof fn spares_ternlog(insn: Decoded, ev: Ev, scratch: i32, at: Place)
    requires
        at.z == Some(ev.reg),
    ensures
        arith::ternlog_outcome(insn, ev, scratch) matches Outcome::Thunk(p) ==> tidy(p, at),
{
    broadcast use group_tidy;

    lemma_tidy_start(scratch, insn, at);
    let p0 = Prog::start(scratch, insn);
    let imm = insn.head.imm8;
    let a = ev.reg;
    let w = ev.w;
    let narrow = ev.aaa != 0 || ev.ll != 2;
    if imm == 0xff {
        let i = p0.index_of(arith::ones());
        let p = p0.constant(arith::ones());
        let r = p.result_reg(narrow, a);
        let p1 = p.result_temp(narrow);
        assert(tidy(p1, at) && free_to(p1, r, at));
        let p3 = p1.vmov(r, Rm::Const(i), 0, 0);
        assert(tidy(p3, at));
        lemma_commit(p3, a, r, ev, at);
    } else if imm == 0 {
        let r = p0.result_reg(narrow, a);
        let p1 = p0.result_temp(narrow);
        assert(tidy(p1, at) && free_to(p1, r, at));
        let p3 = p1.zero(r, 0, w);
        assert(tidy(p3, at));
        lemma_commit(p3, a, r, ev, at);
    } else {
        lemma_src2(p0, insn, ev, at);
        let s = p0.src2_reg(insn, ev);
        let p = p0.src2(insn, ev);
        let r = p.next_temp();
        let p1 = p.temp();
        let t = p1.next_temp();
        let p2 = p1.temp();
        assert(tidy(p1, at) && sv(p1).temps.contains(r));
        assert(tidy(p2, at) && sv(p2).temps.contains(r) && sv(p2).temps.contains(t));
        if imm == 0x96 {
            let p3 = p2.i0f(0xEF, r, a, Rm::Reg(ev.vvvv), 0, w).i0f(0xEF, r, r, Rm::Reg(s), 0, w);
            assert(tidy(p3, at));
            lemma_commit(p3, a, r, ev, at);
        } else {
            lemma_bool2(p2, r, ev.vvvv, s, imm >> 4, w, at);
            let pa = p2.bool2(r, ev.vvvv, s, imm >> 4, w);
            lemma_bool2(pa, t, ev.vvvv, s, imm & 0xf, w, at);
            let pb = pa.bool2(t, ev.vvvv, s, imm & 0xf, w);
            let p3 = pb.i0f(0xDB, r, a, Rm::Reg(r), 0, w).i0f(0xDF, t, a, Rm::Reg(t), 0, w).i0f(
                0xEB,
                r,
                r,
                Rm::Reg(t),
                0,
                w,
            );
            assert(tidy(p3, at));
            lemma_commit(p3, a, r, ev, at);
        }
    }
}

proof fn spares_divsqrt(insn: Decoded, ev: Ev, scratch: i32, at: Place)
    requires
        at.z == Some(ev.reg),
    ensures
        divide::divsqrt_outcome(insn, ev, scratch) matches Outcome::Thunk(p) ==> tidy(p, at),
{
    broadcast use group_tidy;

    lemma_tidy_start(scratch, insn, at);
    let p0 = Prog::start(scratch, insn);
    let m = insn.head.mnemonic;
    let x = p0.src2_reg(insn, ev);
    let p = divide::staged(p0, insn, ev);
    lemma_src2(p0, insn, ev, at);
    assert(tidy(p0.temp(), at));
    if MemOp::spec_of(insn) is Some {
        let mm = Rm::Mem(MemOp::spec_of(insn)->0);
        lemma_broadcast_load(p0.temp(), p0.next_temp(), mm, 0, ev.w, at);
    }
    assert(tidy(p, at));
    let r = p.next_temp();
    let p1 = p.temp();
    let e = p1.next_temp();
    let p2 = p1.temp();
    let q = p2.next_temp();
    let p3 = p2.temp().step(Step::K);
    assert(tidy(p3, at) && sv(p3).k);
    assert(free_to(p3, r, at) && free_to(p3, e, at) && free_to(p3, q, at));
    let ex = p3.next_temp();
    let p4 = p3.temp();
    assert(tidy(p4, at) && sv(p4).k);
    assert(free_to(p4, r, at) && free_to(p4, e, at) && free_to(p4, q, at) && free_to(p4, ex, at));
    let result = if ev.w == 0 {
        q
    } else {
        e
    };
    let p5 = if divide::is_division(m) && ev.w == 0 {
        p3.div_ps(ev.vvvv, x, r, e, q)
    } else if divide::is_division(m) {
        p4.div_pd_finite(ev.vvvv, x, r, e, q, ex).div_pd_special(ev.vvvv, x, r, e, q, ex)
    } else if ev.w == 0 {
        p3.sqrt_ps(x, r, e, q)
    } else {
        p4.sqrt_pd(x, r, e, q, ex)
    };
    lemma_div_ps(p3, ev.vvvv, x, r, e, q, at);
    lemma_div_pd_finite(p4, ev.vvvv, x, r, e, q, ex, at);
    lemma_div_pd_special(
        p4.div_pd_finite(ev.vvvv, x, r, e, q, ex),
        ev.vvvv,
        x,
        r,
        e,
        q,
        ex,
        at,
    );
    lemma_sqrt_ps(p3, x, r, e, q, at);
    lemma_sqrt_pd(p4, x, r, e, q, ex, at);
    assert(tidy(p5, at));
    lemma_scalar_result(p5, ev.reg, result, ev.vvvv, ev.w, at);
    lemma_commit(p5, ev.reg, result, ev, at);
}

proof fn spares_scalef(insn: Decoded, ev: Ev, scratch: i32, at: Place)
    requires
        at.z == Some(ev.reg),
    ensures
        convert::scalef_outcome(insn, ev, scratch) matches Outcome::Thunk(p) ==> tidy(p, at),
{
    broadcast use group_tidy;

    lemma_tidy_start(scratch, insn, at);
    let p0 = Prog::start(scratch, insn);
    lemma_src2(p0, insn, ev, at);
    let s = p0.src2_reg(insn, ev);
    let p = p0.src2(insn, ev);
    let r = p.next_temp();
    let p1 = p.temp();
    let t = p1.next_temp();
    let p2 = p1.temp();
    assert(tidy(p1, at) && sv(p1).temps.contains(r));
    assert(tidy(p2, at) && sv(p2).temps.contains(r) && sv(p2).temps.contains(t));
    let p3 = p2.mvex(3, 1, 0, 0xCB, r, 0, Rm::Reg(s), 0, 0, Some(1)).mvex(
        2,
        1,
        0,
        0x84,
        t,
        ev.vvvv,
        Rm::Reg(r),
        0,
        0,
        None,
    );
    assert(tidy(p3, at));
    lemma_commit(p3, ev.reg, t, ev, at);
}

proof fn lemma_indefinite(p: Prog, r: u8, s: u8, from_double: bool, at: Place)
    requires
        tidy(p, at),
        free_to(p, r, at),
    ensures
        tidy(convert::indefinite_above(p, r, s, from_double), at),
        went_on(p, convert::indefinite_above(p, r, s, from_double)),
{
    broadcast use group_tidy;

    let big = if from_double {
        prog::splat64(convert::F64_TWO31)
    } else {
        prog::splat32(convert::F32_TWO31)
    };
    let w: u8 = if from_double {
        1
    } else {
        0
    };
    let i = p.index_of(big);
    let p1 = p.constant(big).step(Step::K).compare(p.kscr, s, Rm::Const(i), 5, 0, w);
    assert(tidy(p1, at) && went_on(p, p1));
}

proof fn spares_cvt_to_int(insn: Decoded, ev: Ev, scratch: i32, at: Place)
    requires
        at.z == Some(ev.reg),
    ensures
        convert::cvt_to_int_outcome(insn, ev, scratch) matches Outcome::Thunk(p) ==> tidy(p, at),
{
    broadcast use group_tidy;

    lemma_tidy_start(scratch, insn, at);
    let p0 = Prog::start(scratch, insn);
    lemma_src2(p0, insn, ev, at);
    let s = p0.src2_reg(insn, ev);
    let p = p0.src2(insn, ev);
    let r = p.next_temp();
    let p1 = p.temp();
    assert(tidy(p1, at) && sv(p1).temps.contains(r));
    let imm: u8 = if insn.head.mnemonic == mn::VCVTTPS2DQ {
        3
    } else {
        0
    };
    let p3 = p1.mvex(3, 1, 0, 0xCB, r, 0, Rm::Reg(s), 0, 0, Some(imm));
    assert(tidy(p3, at) && free_to(p3, r, at));
    lemma_indefinite(p3, r, s, false, at);
    lemma_commit(convert::indefinite_above(p3, r, s, false), ev.reg, r, ev, at);
}

proof fn lemma_lane_mask(p: Prog, ll: u8, at: Place)
    requires
        tidy(p, at),
    ensures
        tidy(p.lane_mask(ll), at),
        went_on(p, p.lane_mask(ll)),
{
    lemma_mask_imm(p, ev::vl_lanes(ll, 0), at);
}

proof fn spares_cvt_ph2ps(insn: Decoded, ev: Ev, scratch: i32, at: Place)
    requires
        at.z == Some(ev.reg),
    ensures
        convert::cvt_ph2ps_outcome(insn, ev, scratch) matches Outcome::Thunk(p) ==> tidy(p, at),
{
    broadcast use group_tidy;

    lemma_tidy_start(scratch, insn, at);
    let p0 = Prog::start(scratch, insn);
    let narrow = ev.aaa != 0 || ev.ll != 2;
    let r = p0.result_reg(narrow, ev.reg);
    let k = p0.lane_k(ev.ll);
    let p = p0.result_temp(narrow);
    assert(tidy(p, at) && free_to(p, r, at));
    match MemOp::spec_of(insn) {
        Some(m) => {
            lemma_lane_mask(p, ev.ll, at);
            let p3 = p.lane_mask(ev.ll).load_unaligned(r, m, k, true, 3);
            assert(tidy(p3, at));
            lemma_commit(p3, ev.reg, r, ev, at);
        },
        None => {
            let p1 = p.mask_imm(convert::half_dwords(ev.ll)).mvex(
                2,
                1,
                0,
                0xD0,
                ev.rm,
                0,
                Rm::Fs(S_XFER),
                p.kscr,
                0,
                None,
            );
            assert(tidy(p1, at) && went_on(p, p1));
            lemma_lane_mask(p1, ev.ll, at);
            let p3 = p1.lane_mask(ev.ll).mvex(1, 0, 0, 0x28, r, 0, Rm::Fs(S_XFER), k, 3, None);
            assert(tidy(p3, at));
            lemma_commit(p3, ev.reg, r, ev, at);
        },
    }
}

proof fn spares_widen(insn: Decoded, ev: Ev, scratch: i32, at: Place)
    requires
        at.z == Some(ev.reg),
    ensures
        convert::widen_outcome(insn, ev, scratch) matches Outcome::Thunk(p) ==> tidy(p, at),
{
    broadcast use group_tidy;

    lemma_tidy_start(scratch, insn, at);
    let p0 = Prog::start(scratch, insn);
    let conv = convert::widening(insn.head.mnemonic);
    let narrow = ev.aaa != 0 || ev.ll != 2;
    let r = p0.result_reg(narrow, ev.reg);
    let k = p0.lane_k(ev.ll);
    let p = p0.result_temp(narrow);
    assert(tidy(p, at) && free_to(p, r, at));
    match MemOp::spec_of(insn) {
        Some(m) => {
            lemma_lane_mask(p, ev.ll, at);
            let p3 = p.lane_mask(ev.ll).load_unaligned(r, m, k, false, conv.0);
            assert(tidy(p3, at));
            lemma_commit(p3, ev.reg, r, Ev { w: 0, ..ev }, at);
        },
        None => {
            let p1 = p.mask_imm(convert::packed_dwords(ev.ll, conv.1)).mvex(
                2,
                1,
                0,
                0xD0,
                ev.rm,
                0,
                Rm::Fs(S_XFER),
                p.kscr,
                0,
                None,
            );
            assert(tidy(p1, at) && went_on(p, p1));
            lemma_lane_mask(p1, ev.ll, at);
            let p3 = p1.lane_mask(ev.ll).mvex(
                1,
                1,
                0,
                0x6F,
                r,
                0,
                Rm::Fs(S_XFER),
                k,
                conv.0,
                None,
            );
            assert(tidy(p3, at));
            lemma_commit(p3, ev.reg, r, Ev { w: 0, ..ev }, at);
        },
    }
}

proof fn spares_cvt_pd2ps(insn: Decoded, ev: Ev, scratch: i32, at: Place)
    requires
        at.z == Some(ev.reg),
    ensures
        convert::cvt_pd2ps_outcome(insn, ev, scratch) matches Outcome::Thunk(p) ==> tidy(p, at),
{
    broadcast use group_tidy;

    lemma_tidy_start(scratch, insn, at);
    let p0 = Prog::start(scratch, insn);
    let s = p0.src2_reg(insn, ev);
    lemma_src2(p0, insn, ev, at);
    let p = p0.src2(insn, ev);
    let r = p.result_reg(ev.aaa != 0, ev.reg);
    let p1 = p.result_temp(ev.aaa != 0);
    assert(tidy(p1, at) && free_to(p1, r, at));
    let p2 = p1.mvex(1, 1, 1, 0x5A, r, 0, Rm::Reg(s), 0, 0, None);
    assert(tidy(p2, at) && free_to(p2, r, at));
    let p3 = if ev.ll != 2 {
        p2.zero_lanes(r, !convert::half_dwords(ev.ll))
    } else {
        p2
    };
    lemma_zero_lanes(p2, r, !convert::half_dwords(ev.ll), at);
    let e = Ev {
        ll: if ev.ll == 2 {
            1
        } else {
            0
        },
        w: 0,
        ..ev
    };
    lemma_commit(p3, ev.reg, r, e, at);
    let p4 = p3.commit(ev.reg, r, e);
    assert(free_to(p4, ev.reg, at));
    lemma_zero_lanes(p4, ev.reg, 0xfffc, at);
}

proof fn spares_cvt_ps2ph(insn: Decoded, ev: Ev, scratch: i32, at: Place)
    requires
        !insn.has_mem() ==> at.z == Some(ev.rm),
    ensures
        convert::cvt_ps2ph_outcome(insn, ev, scratch) matches Outcome::Thunk(p) ==> tidy(p, at),
{
    broadcast use group_tidy;

    lemma_tidy_start(scratch, insn, at);
    let p0 = Prog::start(scratch, insn);
    let k = p0.lane_k(ev.ll);
    lemma_lane_mask(p0, ev.ll, at);
    let p = p0.lane_mask(ev.ll);
    match MemOp::spec_of(insn) {
        Some(m) => {
            lemma_mask_imm(p, ev::vl_lanes(ev.ll, 0), at);
        },
        None => {
            let p1 = p.mvex(1, 0, 0, 0x29, ev.reg, 0, Rm::Fs(S_XFER), k, 3, None);
            assert(tidy(p1, at));
            let p2 = p1.mask_imm(convert::half_dwords(ev.ll)).vmov(
                ev.rm,
                Rm::Fs(S_XFER),
                p1.kscr,
                0,
            );
            assert(tidy(p2, at) && free_to(p2, ev.rm, at));
            lemma_zero_lanes(p2, ev.rm, !convert::half_dwords(ev.ll), at);
        },
    }
}

proof fn spares_rndscale(insn: Decoded, ev: Ev, scratch: i32, at: Place)
    requires
        at.z == Some(ev.reg),
    ensures
        convert::rndscale_outcome(insn, ev, scratch) matches Outcome::Thunk(p) ==> tidy(p, at),
{
    broadcast use group_tidy;

    lemma_tidy_start(scratch, insn, at);
    let p0 = Prog::start(scratch, insn);
    let imm = insn.head.imm8;
    let scalar = insn.head.mnemonic == mn::VRNDSCALESS || insn.head.mnemonic == mn::VRNDSCALESD;
    let rc = Some(imm & 3);
    if scalar {
        let (rm, sss): (Rm, u8) = match MemOp::spec_of(insn) {
            Some(m) => (Rm::Mem(m), 1),
            None => (Rm::Reg(ev.rm), 0),
        };
        let p3 = p0.mask_imm(1).mvex(3, 1, ev.w, 0x52, ev.reg, 0, rm, p0.kscr, sss, rc);
        assert(tidy(p3, at));
        lemma_scalar_rest(p3, ev.reg, ev.vvvv, ev.w, at);
    } else {
        lemma_src2(p0, insn, ev, at);
        let s = p0.src2_reg(insn, ev);
        let p = p0.src2(insn, ev);
        let narrow = ev.aaa != 0 || ev.ll != 2;
        let r = p.result_reg(narrow, ev.reg);
        let p1 = p.result_temp(narrow);
        assert(tidy(p1, at) && free_to(p1, r, at));
        let p3 = p1.mvex(3, 1, ev.w, 0x52, r, 0, Rm::Reg(s), 0, 0, rc);
        assert(tidy(p3, at));
        lemma_commit(p3, ev.reg, r, ev, at);
    }
}

proof fn spares_shift_by_xmm(insn: Decoded, ev: Ev, scratch: i32, at: Place)
    requires
        at.z == Some(ev.reg),
    ensures
        arith::shift_by_xmm_outcome(insn, ev, scratch) matches Outcome::Thunk(p) ==> tidy(p, at),
{
    broadcast use group_tidy;

    lemma_tidy_start(scratch, insn, at);
    let p0 = Prog::start(scratch, insn);
    let t = p0.next_temp();
    let r = p0.temp().next_temp();
    let p1 = p0.temp().temp();
    assert(tidy(p1, at) && free_to(p1, t, at) && free_to(p1, r, at));
    let p2 = match MemOp::spec_of(insn) {
        Some(m) => p1.broadcast_load(t, Rm::Mem(m), 0, 0).broadcast_load(
            r,
            Rm::Mem(m.spec_plus(4)),
            0,
            0,
        ),
        None => p1.vpermf32x4(t, Rm::Reg(ev.rm), 0x00, 0).vpshufd(
            r,
            Rm::Reg(t),
            0x55,
            0,
        ).vpshufd(t, Rm::Reg(t), 0x00, 0),
    };
    if let Some(m) = MemOp::spec_of(insn) {
        lemma_broadcast_load(p1, t, Rm::Mem(m), 0, 0, at);
        let q = p1.broadcast_load(t, Rm::Mem(m), 0, 0);
        assert(free_to(q, r, at));
        lemma_broadcast_load(q, r, Rm::Mem(m.spec_plus(4)), 0, 0, at);
    }
    assert(tidy(p2, at) && free_to(p2, t, at) && free_to(p2, r, at));
    let all = prog::splat32(arith::COUNT_ALL);
    let c = p2.index_of(all);
    let p3 = p2.constant(all).step(Step::K).mvex(
        2,
        1,
        0,
        0x27,
        p2.kscr,
        r,
        Rm::Reg(r),
        0,
        0,
        None,
    );
    assert(tidy(p3, at) && free_to(p3, t, at) && free_to(p3, r, at));
    let p4 = p3.vmov(t, Rm::Const(c), p2.kscr, 0).i38(
        arith::variable_shift(insn.head.mnemonic),
        r,
        ev.vvvv,
        Rm::Reg(t),
        0,
    );
    assert(tidy(p4, at));
    lemma_commit(p4, ev.reg, r, ev, at);
}

proof fn spares_scalar_minmax(insn: Decoded, ev: Ev, scratch: i32, at: Place)
    requires
        at.z == Some(ev.reg),
    ensures
        arith::scalar_minmax_outcome(insn, ev, scratch) matches Outcome::Thunk(p) ==> tidy(p, at),
{
    broadcast use group_tidy;

    lemma_tidy_start(scratch, insn, at);
    let p0 = Prog::start(scratch, insn);
    let is_max = insn.head.mnemonic == mn::VMAXSS || insn.head.mnemonic == mn::VMAXSD;
    let s2 = p0.src2_reg(insn, ev);
    assert(tidy(p0.temp(), at) && free_to(p0.temp(), p0.next_temp(), at));
    let p = match MemOp::spec_of(insn) {
        Some(m) => p0.temp().broadcast_load(s2, Rm::Mem(m), 0, ev.w),
        None => p0,
    };
    if MemOp::spec_of(insn) is Some {
        lemma_broadcast_load(p0.temp(), s2, Rm::Mem(MemOp::spec_of(insn)->0), 0, ev.w, at);
    }
    assert(tidy(p, at));
    let r = p.next_temp();
    let p1 = p.temp();
    assert(tidy(p1, at) && free_to(p1, r, at));
    let p3 = p1.pick(r, ev.vvvv, s2, is_max, ev.w);
    assert(tidy(p3, at));
    lemma_scalar_result(p3, ev.reg, r, ev.vvvv, ev.w, at);
}

proof fn spares_scalar_op(insn: Decoded, ev: Ev, scratch: i32, at: Place)
    requires
        at.z == Some(ev.reg),
        writes_vector(ev),
    ensures
        arith::scalar_op_outcome(insn, ev, scratch) matches Outcome::Thunk(p) ==> tidy(p, at),
{
    broadcast use group_tidy;

    lemma_tidy_start(scratch, insn, at);
    let p0 = Prog::start(scratch, insn);
    let pp: u8 = if ev.map == 1 {
        ev.w
    } else {
        1
    };
    let (rm, sss): (Rm, u8) = match MemOp::spec_of(insn) {
        Some(m) => (Rm::Mem(m), 1),
        None => (Rm::Reg(ev.rm), 0),
    };
    lemma_masked_lanes(p0, 1, ev.aaa, at);
    let p3 = p0.masked_lanes(1, ev.aaa).mvex(
        ev.map,
        pp,
        ev.w,
        ev.op,
        ev.reg,
        ev.vvvv,
        rm,
        p0.kscr,
        sss,
        None,
    );
    assert(tidy(p3, at));
    lemma_scalar_rest(p3, ev.reg, ev.vvvv, ev.w, at);
}

/// Whether the packed form of a scalar instruction writes the register in
/// ModRM.reg.
pub open spec fn writes_vector(ev: Ev) -> bool {
    let m = lane_results::scalar_form(ev);
    !marks(m) && !stores(m) && Vm::dest(m) == ev.reg
}

proof fn spares_scalar_move(insn: Decoded, ev: Ev, scratch: i32, at: Place)
    requires
        !insn.has_mem() || insn.kind(0) == insn::KIND_REGISTER ==> at.z == Some(ev.reg),
    ensures
        arith::scalar_move_outcome(insn, ev, scratch) matches Outcome::Thunk(p) ==> tidy(p, at),
{
    broadcast use group_tidy;

    lemma_tidy_start(scratch, insn, at);
    let p0 = Prog::start(scratch, insn);
    match MemOp::spec_of(insn) {
        Some(m) => {
            if insn.kind(0) == insn::KIND_REGISTER {
                let k = if ev.aaa != 0 {
                    p0.kscr
                } else {
                    0
                };
                lemma_masked_lanes(p0, 1, ev.aaa, at);
                let p = if ev.aaa != 0 {
                    p0.masked_lanes(1, ev.aaa)
                } else {
                    p0
                };
                lemma_broadcast_load(p, ev.reg, Rm::Mem(m), k, ev.w, at);
                let lanes: u16 = if ev.w == 1 {
                    0xfffc
                } else {
                    0xfffe
                };
                lemma_zero_lanes(p.broadcast_load(ev.reg, Rm::Mem(m), k, ev.w), ev.reg, lanes, at);
            } else {
                let lanes: u16 = if ev.w == 1 {
                    3
                } else {
                    1
                };
                lemma_store_mask(p0, ev.aaa, ev.w, lanes, at);
                assert(tidy(
                    p0.store_mask(ev.aaa, ev.w, lanes).store_unaligned(
                        m,
                        ev.reg,
                        p0.kscr,
                        false,
                        0,
                    ),
                    at,
                ));
            }
        },
        None => {
            lemma_masked_lanes(p0, 1, ev.aaa, at);
            let p1 = p0.masked_lanes(1, ev.aaa);
            let p2 = if ev.reg != ev.rm {
                p1.vmov(ev.reg, Rm::Reg(ev.rm), p1.kscr, ev.w)
            } else {
                p1
            };
            assert(tidy(p2, at));
            lemma_scalar_rest(p2, ev.reg, ev.vvvv, ev.w, at);
        },
    }
}

proof fn lemma_store_mask(p: Prog, aaa: u8, w: u8, lanes: u16, at: Place)
    requires
        tidy(p, at),
    ensures
        tidy(p.store_mask(aaa, w, lanes), at),
        went_on(p, p.store_mask(aaa, w, lanes)),
{
    broadcast use group_tidy;

    lemma_qmask(p, aaa, lanes, at);
    lemma_mask_imm(p, lanes, at);
}

proof fn spares_extract(insn: Decoded, ev: Ev, scratch: i32, at: Place)
    requires
        !insn.has_mem() ==> at.z == Some(ev.rm),
    ensures
        shuffle::extract_outcome(insn, ev, scratch) matches Outcome::Thunk(p) ==> tidy(p, at),
{
    broadcast use group_tidy;

    lemma_tidy_start(scratch, insn, at);
    let p0 = Prog::start(scratch, insn);
    let half = shuffle::extracts_half(insn.head.mnemonic);
    let perm = shuffle::extract_perm(half, ev.ll, insn.head.imm8);
    let lanes: u16 = if half {
        0x00ff
    } else {
        0x000f
    };
    match MemOp::spec_of(insn) {
        Some(m) => {
            let t = p0.next_temp();
            let p1 = p0.temp();
            assert(tidy(p1, at) && free_to(p1, t, at));
            let p2 = p1.brought_down(t, ev.reg, perm);
            assert(tidy(p2, at) && went_on(p1, p2));
            lemma_mask_imm(p2, lanes, at);
            assert(tidy(p2.mask_imm(lanes).store_unaligned(m, t, p0.kscr, false, 0), at));
        },
        None => {
            let ev2 = Ev {
                ll: if half {
                    1
                } else {
                    0
                },
                ..ev
            };
            match perm {
                Some(q) => {
                    let t = p0.result_reg(ev.aaa != 0, ev.rm);
                    let p1 = p0.result_temp(ev.aaa != 0);
                    assert(tidy(p1, at) && free_to(p1, t, at));
                    let p2 = p1.vpermf32x4(t, Rm::Reg(ev.reg), q, 0);
                    assert(tidy(p2, at));
                    lemma_commit(p2, ev.rm, t, ev2, at);
                },
                None => {
                    lemma_commit(p0, ev.rm, ev.reg, ev2, at);
                },
            }
        },
    }
}

proof fn spares_broadcast_reg(insn: Decoded, ev: Ev, scratch: i32, at: Place)
    requires
        at.z == Some(ev.reg),
    ensures
        shuffle::broadcast_reg_outcome(insn, ev, scratch) matches Outcome::Thunk(p) ==> tidy(p, at),
{
    broadcast use group_tidy;

    lemma_tidy_start(scratch, insn, at);
    let p0 = Prog::start(scratch, insn);
    let wide = ev.w == 1;
    let r = p0.result_reg(ev.aaa != 0, ev.reg);
    let p1 = p0.result_temp(ev.aaa != 0);
    assert(tidy(p1, at) && free_to(p1, r, at));
    match insn::gpr_of(insn.reg(1)) {
        Some(g) => {
            let p2 = p1.gpr_scratch(g.0, wide, S_GPR, true);
            assert(tidy(p2, at) && went_on(p1, p2));
            lemma_broadcast_load(p2, r, Rm::Fs(S_GPR), 0, ev.w, at);
            lemma_commit(p2.broadcast_load(r, Rm::Fs(S_GPR), 0, ev.w), ev.reg, r, ev, at);
        },
        None => {
            let imm: u8 = if wide {
                0x44
            } else {
                0x00
            };
            let p2 = p1.vpermf32x4(r, Rm::Reg(ev.rm), 0x00, 0).vpshufd(r, Rm::Reg(r), imm, 0);
            assert(tidy(p2, at));
            lemma_commit(p2, ev.reg, r, ev, at);
        },
    }
}

proof fn spares_unaligned_move(insn: Decoded, bytes: Seq<u8>, ev: Ev, scratch: i32, at: Place)
    requires
        at.z == (if insn.kind(0) == insn::KIND_REGISTER {
            Some(ev.reg)
        } else if insn.has_mem() {
            None
        } else {
            Some(ev.rm)
        }),
    ensures
        arith::unaligned_move_outcome(insn, bytes, ev, scratch) matches Outcome::Thunk(p) ==> tidy(p, at),
{
    broadcast use group_tidy;

    lemma_tidy_start(scratch, insn, at);
    let p0 = Prog::start(scratch, insn);
    let w = if arith::byte_wise(insn.head.mnemonic) {
        0
    } else {
        ev.w
    };
    let load = insn.kind(0) == insn::KIND_REGISTER;
    match MemOp::spec_of(insn) {
        None => {
            lemma_commit(
                p0,
                if load {
                    ev.reg
                } else {
                    ev.rm
                },
                if load {
                    ev.rm
                } else {
                    ev.reg
                },
                (Ev { w, ..ev }),
                at,
            );
        },
        Some(m) => {
            let k = p0.lane_k(ev.ll);
            lemma_lane_mask(p0, ev.ll, at);
            if load && ev.aaa != 0 {
                let t = p0.next_temp();
                assert(tidy(p0.temp(), at) && free_to(p0.temp(), t, at));
                lemma_lane_mask(p0.temp(), ev.ll, at);
                let p1 = p0.temp().lane_mask(ev.ll).load_unaligned(t, m, k, false, 0);
                assert(tidy(p1, at));
                lemma_commit(p1, ev.reg, t, (Ev { w, ..ev }), at);
            } else if load {
                let p1 = p0.lane_mask(ev.ll).load_unaligned(ev.reg, m, k, false, 0);
                assert(tidy(p1, at));
                lemma_zero_lanes(p1, ev.reg, ev::upper(ev.ll), at);
            }
        },
    }
}

proof fn spares_movdq(insn: Decoded, scratch: i32, at: Place)
    requires
        insn.kind(0) == insn::KIND_REGISTER ==> at.z == insn::vreg_of(insn.reg(0)),
    ensures
        arith::movdq_outcome(insn, scratch) matches Outcome::Thunk(p) ==> tidy(p, at),
{
    broadcast use group_tidy;

    lemma_tidy_start(scratch, insn, at);
    let p0 = Prog::start(scratch, insn);
    let wide = insn.head.mnemonic == mn::VMOVQ;
    let w: u8 = if wide {
        1
    } else {
        0
    };
    let above: u16 = if wide {
        0xfffc
    } else {
        0xfffe
    };
    let to_vector = insn.kind(0) == insn::KIND_REGISTER && insn::vreg_of(insn.reg(0)) is Some;
    if to_vector {
        let d = insn::vreg_of(insn.reg(0))->0;
        if insn.kind(1) == insn::KIND_MEMORY {
            let m = Rm::Mem(MemOp::spec_of(insn)->0);
            lemma_broadcast_load(p0, d, m, 0, w, at);
            lemma_zero_lanes(p0.broadcast_load(d, m, 0, w), d, above, at);
        } else {
            match (insn::vreg_of(insn.reg(1)), insn::gpr_of(insn.reg(1))) {
                (Some(s), _) => {
                    let p1 = p0.mask_imm(1).vmov(d, Rm::Reg(s), p0.kscr, 1);
                    assert(tidy(p1, at));
                    lemma_zero_lanes(p1, d, 0xfffc, at);
                },
                (None, Some(g)) => {
                    let p1 = p0.gpr_scratch(g.0, wide, S_GPR, true);
                    assert(tidy(p1, at));
                    lemma_broadcast_load(p1, d, Rm::Fs(S_GPR), 0, w, at);
                    lemma_zero_lanes(p1.broadcast_load(d, Rm::Fs(S_GPR), 0, w), d, above, at);
                },
                (None, None) => {},
            }
        }
    } else {
        let lanes: u16 = if wide {
            3
        } else {
            1
        };
        lemma_mask_imm(p0, lanes, at);
    }
}

proof fn spares_byte_shift(insn: Decoded, ev: Ev, scratch: i32, at: Place)
    requires
        at.z == Some(shift_dest(insn, ev)),
    ensures
        shuffle::byte_shift_outcome(insn, ev, scratch) matches Outcome::Thunk(p) ==> tidy(p, at),
{
    broadcast use group_tidy;

    lemma_tidy_start(scratch, insn, at);
    let p0 = Prog::start(scratch, insn);
    let imm = insn.head.imm8;
    let m = insn.head.mnemonic;
    let n = imm as int / 4;
    let r = p0.next_temp();
    let p = p0.temp();
    assert(tidy(p, at) && free_to(p, r, at));
    let d = if ev::dest_is_vvvv(ev) {
        ev.vvvv
    } else {
        ev.reg
    };
    lemma_src2(p, insn, ev, at);
    let b = p.src2_reg(insn, ev);
    let q = p.src2(insn, ev);
    assert(free_to(q, r, at));
    if m == mn::VPSRLDQ || m == mn::VPSLLDQ {
        let left = m == mn::VPSLLDQ;
        let z = q.zero(r, 0, 0);
        assert(tidy(z, at));
        lemma_commit(z, d, r, ev, at);
        if n < 4 {
            let s = shuffle::rotation(
                if left {
                    4 - n
                } else {
                    n
                },
            );
            let lanes = if left {
                shuffle::bottom_lanes(n)
            } else {
                shuffle::top_lanes(n)
            };
            let p1 = q.vpshufd(r, Rm::Reg(b), s, 0);
            assert(tidy(p1, at) && went_on(q, p1));
            lemma_zero_lanes(p1, r, lanes, at);
            lemma_commit(p1.zero_lanes(r, lanes), d, r, ev, at);
        }
    } else {
        if n >= 8 {
            let q3 = q.zero(r, 0, 0);
            assert(tidy(q3, at));
            lemma_commit(q3, ev.reg, r, ev, at);
        } else if n >= 4 {
            let q1 = q.vpshufd(r, Rm::Reg(ev.vvvv), shuffle::rotation(n - 4), 0);
            assert(tidy(q1, at) && went_on(q, q1));
            lemma_zero_lanes(q1, r, shuffle::top_lanes(n - 4), at);
            lemma_commit(q1.zero_lanes(r, shuffle::top_lanes(n - 4)), ev.reg, r, ev, at);
        } else {
            let t = q.next_temp();
            let q1 = q.temp();
            assert(tidy(q1, at) && free_to(q1, r, at) && free_to(q1, t, at));
            let q3 = q1.vpshufd(r, Rm::Reg(b), shuffle::rotation(n), 0).vpshufd(
                t,
                Rm::Reg(ev.vvvv),
                shuffle::rotation(n),
                0,
            ).mask_imm(shuffle::top_lanes(n)).vmov(r, Rm::Reg(t), q.kscr, 0);
            assert(tidy(q3, at));
            lemma_commit(q3, ev.reg, r, ev, at);
        }
    }
}

/// The destination of a byte shift.
pub open spec fn shift_dest(insn: Decoded, ev: Ev) -> u8 {
    let m = insn.head.mnemonic;
    if (m == mn::VPSRLDQ || m == mn::VPSLLDQ) && ev::dest_is_vvvv(ev) {
        ev.vvvv
    } else {
        ev.reg
    }
}

proof fn lemma_within(p: Prog, ll: u8, t: u8, s: u8, at: Place)
    requires
        tidy(p, at),
        free_to(p, t, at),
    ensures
        tidy(p.within(ll, t, s), at),
        went_on(p, p.within(ll, t, s)),
{
    broadcast use group_tidy;

}

proof fn lemma_permuted(
    p: Prog,
    insn: Decoded,
    ev: Ev,
    odd: usize,
    r: u8,
    t: u8,
    at: Place,
)
    requires
        tidy(p, at),
        free_to(p, r, at),
        free_to(p, t, at),
    ensures
        tidy(permute::permuted(p, insn, ev, odd, r, t), at),
{
    broadcast use group_tidy;

    reveal(permute::permuted);
    lemma_src2(p, insn, ev, at);
    let m = insn.head.mnemonic;
    let imm = insn.head.imm8;
    let s = p.src2_reg(insn, ev);
    let q = p.src2(insn, ev);
    assert(free_to(q, r, at) && free_to(q, t, at));
    if permute::two_tables(m) {
        let idx = if permute::index_in_dest(m) {
            ev.reg
        } else {
            ev.vvvv
        };
        let q1 = if permute::qword_tables(m) {
            q.qidx_to_didx(odd, t, idx)
        } else {
            q
        };
        assert(tidy(q1, at) && went_on(q, q1));
        let ix = if permute::qword_tables(m) {
            t
        } else {
            idx
        };
        let n = prog::splat32(permute::table_dwords(ev.ll));
        let sel = q1.index_of(n);
        let q2 = q1.constant(n).step(Step::K).mvex(
            2,
            1,
            0,
            0x27,
            q1.kscr,
            ix,
            Rm::Const(sel),
            0,
            0,
            None,
        );
        assert(tidy(q2, at) && free_to(q2, t, at) && free_to(q2, r, at));
        lemma_within(q2, ev.ll, t, ix, at);
        assert(free_to(q2.within(ev.ll, t, ix), r, at));
    } else if (m == mn::VPERMQ || m == mn::VPERMPD) && insn.ends_in_imm8() {
        lemma_permute_by(p, insn, ev, permute::vpermq_indices(imm), r, t, at);
    } else if m == mn::VPERMQ || m == mn::VPERMPD {
        let q1 = q.qidx_to_didx(odd, t, ev.vvvv);
        assert(tidy(q1, at) && went_on(q, q1));
        assert(free_to(q1, t, at));
        lemma_within(q1, ev.ll, t, t, at);
        assert(free_to(q1.within(ev.ll, t, t), r, at));
    } else if m == mn::VPERMILPD && insn.ends_in_imm8() {
        lemma_permute_by(p, insn, ev, permute::vpermilpd_indices(imm), r, t, at);
    } else if m == mn::VPERMILPD {
        let q1 = q.vpshufd(t, Rm::Reg(s), 0xa0, 0).shift_imm(2, t, Rm::Reg(t), 1, 0);
        assert(tidy(q1, at) && went_on(q, q1));
        let one = q1.index_of(prog::splat32(1));
        let q2 = q1.constant(prog::splat32(1)).i0f(0xDB, t, t, Rm::Const(one), 0, 0).shift_imm(
            6,
            t,
            Rm::Reg(t),
            1,
            0,
        );
        assert(tidy(q2, at) && went_on(q, q2));
    } else if m == mn::VPERMILPS {
        let three = q.index_of(prog::splat32(3));
        let q1 = q.constant(prog::splat32(3)).i0f(0xDB, t, s, Rm::Const(three), 0, 0);
        assert(tidy(q1, at) && went_on(q, q1));
    }
}

proof fn lemma_permute_by(
    p: Prog,
    insn: Decoded,
    ev: Ev,
    v: Seq<u32>,
    r: u8,
    t: u8,
    at: Place,
)
    requires
        tidy(p, at),
        free_to(p, r, at),
        free_to(p, t, at),
    ensures
        tidy(p.permute_by(insn, ev, v, r, t), at),
{
    broadcast use group_tidy;

    let p1 = p.constant(prog::dwords(v));
    assert(tidy(p1, at) && went_on(p, p1));
    lemma_src2(p1, insn, ev, at);
    let q = p1.src2(insn, ev);
    assert(free_to(q, r, at) && free_to(q, t, at));
}

proof fn spares_permute(insn: Decoded, ev: Ev, scratch: i32, at: Place)
    requires
        at.z == Some(ev.reg),
    ensures
        permute::permute_outcome(insn, ev, scratch) matches Outcome::Thunk(p) ==> tidy(p, at),
{
    broadcast use group_tidy;

    lemma_tidy_start(scratch, insn, at);
    let p0 = Prog::start(scratch, insn);
    let r = p0.next_temp();
    let p1 = p0.temp();
    let t = p1.next_temp();
    let v = prog::dwords(permute::lane_parity());
    let odd = p1.temp().index_of(v);
    let p2 = p1.temp().constant(v);
    assert(tidy(p2, at) && free_to(p2, r, at) && free_to(p2, t, at));
    lemma_permuted(p2, insn, ev, odd, r, t, at);
    lemma_commit(
        permute::permuted(p2, insn, ev, odd, r, t),
        ev.reg,
        r,
        ev,
        at,
    );
}

proof fn lemma_scalar_staged(p: Prog, insn: Decoded, w: u8, at: Place)
    requires
        tidy(p, at),
    ensures
        tidy(convert::scalar_staged(p, insn, w), at),
        convert::scalar_staged(p, insn, w).kscr == p.kscr,
{
    broadcast use group_tidy;

    if MemOp::spec_of(insn) is Some {
        let m = Rm::Mem(MemOp::spec_of(insn)->0);
        assert(tidy(p.temp(), at) && free_to(p.temp(), p.next_temp(), at));
        lemma_broadcast_load(p.temp(), p.next_temp(), m, 0, w, at);
    }
}

proof fn spares_to_int(insn: Decoded, ev: Ev, scratch: i32, at: Place)
    ensures
        convert::to_int_outcome(insn, ev, scratch) matches Outcome::Thunk(p) ==> tidy(p, at),
{
    broadcast use group_tidy;

    lemma_tidy_start(scratch, insn, at);
    let p0 = Prog::start(scratch, insn);
    let m = insn.head.mnemonic;
    let double = convert::from_double(m);
    let truncate = convert::truncates(m);
    let s = convert::scalar_source(p0, insn, ev);
    let w: u8 = if double {
        1
    } else {
        0
    };
    lemma_scalar_staged(p0, insn, w, at);
    let p = convert::scalar_staged(p0, insn, w);
    let t = p.next_temp();
    let p1 = p.temp();
    assert(tidy(p1, at) && free_to(p1, t, at));
    let op: u8 = if double {
        0xdd
    } else {
        0xd9
    };
    let x = p1.vmov(t, Rm::Reg(s), 0, w).mvex(
        2,
        1,
        0,
        0xD0,
        t,
        0,
        Rm::Fs(S_XFER),
        0,
        0,
        None,
    ).fs_op(seq![op], 0, S_XFER);
    assert(tidy(x, at)) by {
        assert(seq![op].len() == 1 && seq![0x0fu8, 0xb7].len() == 2);
    }
    lemma_x87(x, truncate, at);
    let imm: Option<u8> = Some(
        if truncate {
            3
        } else {
            0
        },
    );
    let f = if double {
        p1.mvex(3, 3, 1, 0xE6, t, 0, Rm::Reg(s), 0, 0, imm)
    } else {
        p1.mvex(3, 1, 0, 0xCB, t, 0, Rm::Reg(s), 0, 0, imm)
    };
    assert(tidy(f, at) && went_on(p1, f));
    lemma_indefinite(f, t, s, double, at);
    let g = convert::indefinite_above(f, t, s, double).mask_imm(1).mvex(
        2,
        1,
        0,
        0xD0,
        t,
        0,
        Rm::Fs(S_XFER),
        f.kscr,
        0,
        None,
    );
    assert(tidy(g, at));
    assert(g == convert::fixpoint_to_int(p, s, double, truncate));
    assert(x87_rest(x, truncate) == convert::x87_to_int(p, s, double, truncate));
}

/// The integer stored, around it the control word set to truncate where the
/// instruction does.
spec fn x87_rest(p: Prog, truncate: bool) -> Prog {
    if truncate {
        p
            .step(Step::Flags)
            .fs_op(seq![0xd9], 7, S_CW)
            .fs_op(seq![0x0f, 0xb7], 0, S_CW)
            .raw(seq![0x80, 0xcc, 0x0c])
            .fs_op(seq![0x66, 0x89], 0, S_CW2)
            .fs_op(seq![0xd9], 5, S_CW2)
            .fs_op(seq![0xdf], 7, S_XFER)
            .fs_op(seq![0xd9], 5, S_CW)
    } else {
        p.fs_op(seq![0xdf], 7, S_XFER)
    }
}

proof fn lemma_x87(p: Prog, truncate: bool, at: Place)
    requires
        tidy(p, at),
    ensures
        tidy(x87_rest(p, truncate), at),
{
    broadcast use group_tidy;

    assert(forall|a: u8| (#[trigger] seq![a]).len() == 1);
    assert(seq![0x0fu8, 0xb7].len() == 2);
    assert(seq![0x66u8, 0x89][0] == 0x66 && seq![0x0fu8, 0xb7][0] == 0x0f);
}

proof fn spares_from_int(insn: Decoded, ev: Ev, scratch: i32, at: Place)
    requires
        at.z == Some(ev.reg),
    ensures
        convert::from_int_outcome(insn, ev, scratch) matches Outcome::Thunk(p) ==> tidy(p, at),
{
    broadcast use group_tidy;

    lemma_tidy_start(scratch, insn, at);
    let p0 = Prog::start(scratch, insn);
    let m = insn.head.mnemonic;
    let w: u8 = if m == mn::VCVTSI2SD || m == mn::VCVTUSI2SD {
        1
    } else {
        0
    };
    let unsigned = m == mn::VCVTUSI2SS || m == mn::VCVTUSI2SD;
    let mem = MemOp::spec_of(insn);
    let reg = insn::gpr_of(insn.reg(2));
    let wide = if mem is Some {
        convert::qword_sized(insn.mem.size)
    } else {
        (reg->0).1
    };
    let p = match mem {
        Some(mm) => p0.step(Step::Rax).legacy(convert::int_load(wide, unsigned), mm).gpr_scratch(
            0,
            true,
            S_XFER,
            true,
        ),
        None => if wide {
            p0.gpr_scratch((reg->0).0, true, S_XFER, true)
        } else {
            p0.step(Step::Rax).raw(convert::int_extend((reg->0).0, unsigned)).gpr_scratch(
                0,
                true,
                S_XFER,
                true,
            )
        },
    };
    assert(moves_only(convert::int_extend((reg->0).0, unsigned)));
    assert(tidy(p, at));
    let op: u8 = if w == 1 {
        0xdd
    } else {
        0xd9
    };
    assert(seq![0xdfu8].len() == 1 && seq![op].len() == 1 && seq![0x0fu8, 0xb7].len() == 2);
    let p1 = p.fs_op(seq![0xdf], 5, S_XFER).fs_op(seq![op], 3, S_XFER);
    assert(tidy(p1, at));
    lemma_mask_imm(p1, 1, at);
    let p2 = p1.mask_imm(1);
    lemma_broadcast_load(p2, ev.reg, Rm::Fs(S_XFER), p.kscr, w, at);
    lemma_scalar_rest(
        p2.broadcast_load(ev.reg, Rm::Fs(S_XFER), p.kscr, w),
        ev.reg,
        ev.vvvv,
        w,
        at,
    );
}

proof fn spares_scalar_cvt(insn: Decoded, ev: Ev, scratch: i32, at: Place)
    requires
        !convert::to_int(insn.head.mnemonic) || convert::from_int(insn.head.mnemonic) ==> at.z
            == Some(ev.reg),
    ensures
        convert::scalar_cvt_outcome(insn, ev, scratch) matches Outcome::Thunk(p) ==> tidy(p, at),
{
    broadcast use group_tidy;

    lemma_tidy_start(scratch, insn, at);
    let p0 = Prog::start(scratch, insn);
    let m = insn.head.mnemonic;
    if convert::from_int(m) {
        spares_from_int(insn, ev, scratch, at);
    } else if convert::to_int(m) {
        spares_to_int(insn, ev, scratch, at);
    } else {
        let widens = m == mn::VCVTSS2SD;
        let s = convert::scalar_source(p0, insn, ev);
        let w: u8 = if widens {
            0
        } else {
            1
        };
        lemma_scalar_staged(p0, insn, w, at);
        let p = convert::scalar_staged(p0, insn, w);
        let r = p.next_temp();
        let p1 = p.temp();
        assert(tidy(p1, at) && free_to(p1, r, at));
        if widens {
            let p2 = p1.mvex(1, 0, 0, 0x5A, r, 0, Rm::Reg(s), 0, 0, None);
            assert(tidy(p2, at));
            lemma_scalar_result(p2, ev.reg, r, ev.vvvv, 1, at);
        } else {
            let p2 = p1.mvex(1, 1, 1, 0x5A, r, 0, Rm::Reg(s), 0, 0, None);
            assert(tidy(p2, at));
            lemma_scalar_result(p2, ev.reg, r, ev.vvvv, 0, at);
        }
    }
}

/// Where the result of an instruction that takes the form goes.
pub open spec fn place(f: Form, insn: Decoded, ev: Ev) -> Place {
    let z = match f {
        Form::Extract => if insn.has_mem() {
            None
        } else {
            Some(ev.rm)
        },
        Form::CvtPs2ph => if insn.has_mem() {
            None
        } else {
            Some(ev.rm)
        },
        Form::UnalignedMove => if insn.kind(0) == insn::KIND_REGISTER {
            Some(ev.reg)
        } else if insn.has_mem() {
            None
        } else {
            Some(ev.rm)
        },
        Form::ScalarMove => if insn.has_mem() && insn.kind(0) != insn::KIND_REGISTER {
            None
        } else {
            Some(ev.reg)
        },
        Form::Movdq => if insn.kind(0) == insn::KIND_REGISTER {
            insn::vreg_of(insn.reg(0))
        } else {
            None
        },
        Form::ScalarCvt => if convert::to_int(insn.head.mnemonic) && !convert::from_int(
            insn.head.mnemonic,
        ) {
            None
        } else {
            Some(ev.reg)
        },
        Form::ShiftQ => Some(ev.vvvv),
        Form::ByteShift => Some(shift_dest(insn, ev)),
        _ => Some(ev.reg),
    };
    Place { z, k: None }
}

/// A sequence writes nothing but the instruction's destination and what it
/// saved before, be it a general register, the flags, a mask register or a
/// vector register; and the temporaries it reloads are those it saved.
pub proof fn law_saved_first(f: Form, insn: Decoded, bytes: Seq<u8>, ev: Ev, scratch: i32)
    requires
        f != Form::Table,
        f == Form::ScalarOp ==> writes_vector(ev),
    ensures
        rewrite::special_outcome(f, insn, bytes, ev, scratch) matches Outcome::Thunk(p) ==> {
            &&& careful(p.steps, p.kscr, place(f, insn, ev))
            &&& reloads_temps(p)
        },
{
    reveal(tidy);
    let at = place(f, insn, ev);
    match f {
        Form::Extract => spares_extract(insn, ev, scratch, at),
        Form::Insert => spares_insert(insn, ev, scratch, at),
        Form::Ternlog => spares_ternlog(insn, ev, scratch, at),
        Form::UnalignedMove => spares_unaligned_move(insn, bytes, ev, scratch, at),
        Form::ScalarMove => spares_scalar_move(insn, ev, scratch, at),
        Form::ScalarOp => spares_scalar_op(insn, ev, scratch, at),
        Form::ScalarMinmax => spares_scalar_minmax(insn, ev, scratch, at),
        Form::Minmax => spares_minmax(insn, ev, scratch, at),
        Form::Movdq => spares_movdq(insn, scratch, at),
        Form::BroadcastReg => spares_broadcast_reg(insn, ev, scratch, at),
        Form::Interleave => spares_interleave(insn, ev, scratch, at),
        Form::Valignq => spares_valignq(insn, ev, scratch, at),
        Form::ByteShift => spares_byte_shift(insn, ev, scratch, at),
        Form::CvtToInt => spares_cvt_to_int(insn, ev, scratch, at),
        Form::CvtPh2ps => spares_cvt_ph2ps(insn, ev, scratch, at),
        Form::CvtPd2ps => spares_cvt_pd2ps(insn, ev, scratch, at),
        Form::Scalef => spares_scalef(insn, ev, scratch, at),
        Form::Divsqrt => spares_divsqrt(insn, ev, scratch, at),
        Form::Rndscale => spares_rndscale(insn, ev, scratch, at),
        Form::ScalarCvt => spares_scalar_cvt(insn, ev, scratch, at),
        Form::Permute => spares_permute(insn, ev, scratch, at),
        Form::CvtPs2ph => spares_cvt_ps2ph(insn, ev, scratch, at),
        Form::Widen => spares_widen(insn, ev, scratch, at),
        Form::ShiftQ => spares_shift_q(insn, ev, scratch, at),
        Form::AbsD => spares_abs_d(insn, ev, scratch, at),
        Form::Muludq => spares_muludq(insn, ev, scratch, at),
        Form::ShiftByXmm => spares_shift_by_xmm(insn, ev, scratch, at),
        Form::Table => {},
    }
}

/// Where the result of an instruction of the table goes.
pub open spec fn table_place(ev: Ev) -> Place {
    if table::is_store(ev) {
        Place { z: None, k: None }
    } else if table::writes_mask(ev) {
        Place { z: None, k: Some(ev.reg & 7) }
    } else if ev::dest_is_vvvv(ev) {
        Place { z: Some(ev.vvvv), k: None }
    } else {
        Place { z: Some(ev.reg), k: None }
    }
}

/// The same of a compare for equal bytes or words.
pub proof fn law_bytes_saved_first(insn: Decoded, ev: Ev, words: bool, scratch: i32)
    ensures
        ({
            let p = bytewise::equal_outcome(insn, ev, words, scratch)->Thunk_0;
            let at = Place { z: None, k: Some(ev.reg & 7) };
            careful(p.steps, p.kscr, at) && reloads_temps(p)
        }),
{
    broadcast use group_tidy;

    let at = Place { z: None, k: Some(ev.reg & 7) };
    lemma_tidy_start(scratch, insn, at);
    let p0 = Prog::start(scratch, insn);
    lemma_src2(p0, insn, ev, at);
    let s = p0.src2_reg(insn, ev);
    let p = p0.src2(insn, ev);
    let x = p.next_temp();
    let y = p.temp().next_temp();
    let p1 = p.temp().temp();
    assert(tidy(p1, at) && free_to(p1, x, at) && free_to(p1, y, at));
    let (c, d) = (
        prog::splat32(bytewise::less_one(words)),
        prog::splat32(bytewise::top_bits(words)),
    );
    let i = p1.index_of(c);
    let p2 = p1.constant(c);
    assert(tidy(p2, at) && went_on(p1, p2));
    let j = p2.index_of(d);
    let p3 = p2.constant(d).i0f(0xEF, x, ev.vvvv, Rm::Reg(s), 0, 0).i0f(
        0xFE,
        y,
        x,
        Rm::Const(i),
        0,
        0,
    ).i0f(0xDF, y, x, Rm::Reg(y), 0, 0);
    assert(tidy(p3, at) && went_on(p1, p3));
    let p4 = p3.mvex(2, 1, 0, 0x27, ev.reg & 7, y, Rm::Const(j), 0, 0, None);
    assert(tidy(p4, at) && went_on(p1, p4));
    lemma_mask_imm(p4, ev::vl_lanes(ev.ll, 0), at);
    let p5 = p4.mask_imm(ev::vl_lanes(ev.ll, 0)).vexk(0x41, ev.reg & 7, p4.kscr);
    assert(tidy(p5, at));
    reveal(tidy);
}

/// The same of an instruction of the table.
pub proof fn law_table_saved_first(insn: Decoded, ev: Ev, c: Canon, scratch: i32)
    requires
        rewrite::spelling(ev) == Some(c),
        table::writes_mask(ev) ==> ev.reg < 8,
        table::writes_mask(ev) == marks(results::unmasked(insn, ev, c)),
    ensures
        table::generic_outcome(insn, ev, c, scratch) matches Outcome::Thunk(p) ==> {
            &&& careful(p.steps, p.kscr, table_place(ev))
            &&& reloads_temps(p)
        },
{
    broadcast use group_tidy;

    let at = table_place(ev);
    lemma_tidy_start(scratch, insn, at);
    let p0 = Prog::start(scratch, insn);
    lemma_lane_mask(p0, ev.ll, at);
    let full = ev.ll == 2;
    let st = table::staging(insn, ev);
    let rm = p0.staged_rm(st);
    let p = p0.staged(st, ev.ll);
    assert(tidy(p0.temp(), at) && free_to(p0.temp(), p0.next_temp(), at));
    lemma_lane_mask(p0.temp(), ev.ll, at);
    assert(tidy(p, at));
    let keff = if full {
        ev.aaa
    } else {
        p.kscr
    };
    lemma_masked_lanes(p, ev::vl_lanes(ev.ll, ev.w), ev.aaa, at);
    let p1 = if full {
        p
    } else {
        p.masked_lanes(ev::vl_lanes(ev.ll, ev.w), ev.aaa)
    };
    assert(tidy(p1, at));
    let d = if ev::dest_is_vvvv(ev) {
        ev.vvvv
    } else {
        ev.reg
    };
    let m = results::unmasked(insn, ev, c);
    if !table::is_store(ev) {
        if table::writes_mask(ev) {
            compare_results::lemma_low_three(ev.reg);
        }
        let p2 = p1.mvex(c.map, c.pp, c.w, c.op, m.reg, ev.vvvv, rm.0, keff, rm.1, m.imm);
        assert(tidy(p2, at));
        let p3 = if ev.z {
            p2.step(Step::K).vexk(0x44, p2.kscr, keff).zero(d, p2.kscr, ev.w)
        } else {
            p2
        };
        if !table::writes_mask(ev) {
            assert(tidy(p3, at));
            lemma_zero_lanes(p3, d, ev::upper(ev.ll), at);
        }
        assert(tidy(p2.settled(ev, d, keff), at));
    } else if MemOp::spec_of(insn) is Some {
        let x = MemOp::spec_of(insn)->0;
        let k = p0.lane_k(ev.ll);
        assert(tidy(p0.lane_mask(ev.ll).store_unaligned(x, ev.reg, k, false, 0), at));
    }
    reveal(tidy);
}

/// What the steps saved is what the end of the sequence restores.
pub proof fn law_saved_is_restored(scratch: i32, kscr: u8, steps: Seq<Step>)
    ensures
        ({
            let low = prog::lowered(scratch, kscr, steps);
            let sv = saved(steps);
            &&& low.rax == sv.rax
            &&& low.rcx == sv.rcx
            &&& low.k == sv.k
            &&& low.flags == sv.flags
            &&& sv.k || sv.flags ==> sv.rax
        }),
    decreases steps.len(),
{
    if steps.len() > 0 {
        law_saved_is_restored(scratch, kscr, steps.drop_last());
    }
}

} // verus!
