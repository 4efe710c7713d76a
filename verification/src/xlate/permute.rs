//! The permutes the card composes from `vpermd` (indices, bits 3:0) and
//! `vptestmd`.
use crate::bits;
use crate::xlate::code::{Rewrite, Rm, Unsupported};
use crate::xlate::em::Em;
use crate::xlate::ev;
use crate::xlate::ev::{Ev, Outcome};
use crate::xlate::insn;
use crate::xlate::insn::Decoded;
use crate::xlate::mnemonic as mn;
use crate::xlate::prog;
use crate::xlate::prog::{Prog, Step};
use vstd::prelude::*;

verus! {

/// The low bit of every lane number.
pub open spec fn lane_parity() -> Seq<u32> {
    seq![0, 1, 0, 1, 0, 1, 0, 1, 0, 1, 0, 1, 0, 1, 0, 1]
}

/// Dword indices of a qword permute by immediate: per 256-bit half, qword j
/// from qword (imm >> 2j) & 3 of the same half.
pub open spec fn vpermq_indices(imm: u8) -> Seq<u32> {
    Seq::new(
        16,
        |i: int|
            (8 * (i / 8) + 2 * ((imm >> ((2 * ((i / 2) % 4)) as u8)) & 3) + i % 2) as u32,
    )
}

/// Dword indices of vpermilpd by immediate: bit (2b + j) of the immediate
/// picks the qword for lane j of block b.
pub open spec fn vpermilpd_indices(imm: u8) -> Seq<u32> {
    Seq::new(
        16,
        |i: int|
            (4 * (i / 4) + 2 * ((imm >> ((2 * (i / 4) + (i / 2) % 2) as u8)) & 1) + i % 2) as u32,
    )
}

fn vpermq_table(imm: u8) -> (v: [u32; 16])
    ensures
        v@ == vpermq_indices(imm),
{
    let mut v: [u32; 16] = [0u32; 16];
    let mut i: usize = 0;
    while i < 16
        invariant
            i <= 16,
            forall|j: int| 0 <= j < i ==> #[trigger] v@[j] == vpermq_indices(imm)[j],
        decreases 16 - i,
    {
        let half: u32 = (i / 8) as u32;
        let q: u8 = ((i / 2) % 4) as u8;
        let at: u8 = 2 * q;
        let sel: u8 = (imm >> at) & 3;
        proof {
            bits::lemma_low(imm >> at);
        }
        v[i] = 8 * half + 2 * (sel as u32) + (i % 2) as u32;
        i = i + 1;
    }
    assert(v@ =~= vpermq_indices(imm));
    v
}

fn vpermilpd_table(imm: u8) -> (v: [u32; 16])
    ensures
        v@ == vpermilpd_indices(imm),
{
    let mut v: [u32; 16] = [0u32; 16];
    let mut i: usize = 0;
    while i < 16
        invariant
            i <= 16,
            forall|j: int| 0 <= j < i ==> #[trigger] v@[j] == vpermilpd_indices(imm)[j],
        decreases 16 - i,
    {
        let b: u8 = (i / 4) as u8;
        let j: u8 = ((i / 2) % 2) as u8;
        let at: u8 = 2 * b + j;
        let sel: u8 = (imm >> at) & 1;
        proof {
            bits::lemma_low(imm >> at);
        }
        v[i] = 4 * (b as u32) + 2 * (sel as u32) + (i % 2) as u32;
        i = i + 1;
    }
    assert(v@ =~= vpermilpd_indices(imm));
    v
}

/// Whether `m` permutes two tables.
#[verifier::allow_in_spec]
pub fn two_tables(m: u16) -> bool
    returns
        index_in_dest(m) || m == mn::VPERMT2PS || m == mn::VPERMT2D || m == mn::VPERMT2PD || m
            == mn::VPERMT2Q,
{
    index_in_dest(m) || m == mn::VPERMT2PS || m == mn::VPERMT2D || m == mn::VPERMT2PD || m
        == mn::VPERMT2Q
}

/// Whether `m` permutes two tables by the indices in its destination.
#[verifier::allow_in_spec]
pub fn index_in_dest(m: u16) -> bool
    returns
        m == mn::VPERMI2PS || m == mn::VPERMI2D || m == mn::VPERMI2PD || m == mn::VPERMI2Q,
{
    m == mn::VPERMI2PS || m == mn::VPERMI2D || m == mn::VPERMI2PD || m == mn::VPERMI2Q
}

/// Whether `m` permutes two tables of qwords.
#[verifier::allow_in_spec]
pub fn qword_tables(m: u16) -> bool
    returns
        m == mn::VPERMI2PD || m == mn::VPERMI2Q || m == mn::VPERMT2PD || m == mn::VPERMT2Q,
{
    m == mn::VPERMI2PD || m == mn::VPERMI2Q || m == mn::VPERMT2PD || m == mn::VPERMT2Q
}

/// How many dwords a table of a vector of length `ll` has.
#[verifier::allow_in_spec]
pub fn table_dwords(ll: u8) -> u32
    returns
        (if ll == 2 {
            16u32
        } else if ll == 1 {
            8
        } else {
            4
        }),
{
    if ll == 2 {
        16
    } else if ll == 1 {
        8
    } else {
        4
    }
}

impl Prog {
    /// A qword index vector (3 or 4 bits per qword) as a dword index vector:
    /// lane 2i gets 2*q, lane 2i+1 gets 2*q+1 (bit 4 keeps a table selector).
    pub open spec fn qidx_to_didx(self, odd: usize, out: u8, q: u8) -> Prog {
        self
            .vpshufd(out, Rm::Reg(q), 0xa0, 0)
            .shift_imm(6, out, Rm::Reg(out), 1, 0)
            .i0f(0xFE, out, out, Rm::Const(odd), 0, 0)
    }

    /// The dword indices in `s` cut to the tables of a vector of length `ll`,
    /// into `t`: to the lanes of the length, where it is a narrow one.
    pub open spec fn within(self, ll: u8, t: u8, s: u8) -> Prog {
        if ll == 2 {
            self
        } else {
            let low = prog::splat32((table_dwords(ll) - 1) as u32);
            let mask = self.index_of(low);
            self.constant(low).i0f(0xDB, t, s, Rm::Const(mask), 0, 0)
        }
    }

    /// A permute by the constant indices `v`.
    pub open spec fn permute_by(self, insn: Decoded, ev: Ev, v: Seq<u32>, r: u8, t: u8) -> Prog {
        let c = self.index_of(prog::dwords(v));
        let p = self.constant(prog::dwords(v));
        let s = p.src2_reg(insn, ev);
        p.src2(insn, ev).vmov(t, Rm::Const(c), 0, 0).vpermd(r, t, Rm::Reg(s), 0)
    }
}

/// What a permute becomes, its result in `r`.
#[verifier::opaque]
pub open spec fn permuted(p: Prog, insn: Decoded, ev: Ev, odd: usize, r: u8, t: u8) -> Prog {
    let m = insn.head.mnemonic;
    let imm = insn.head.imm8;
    let s = p.src2_reg(insn, ev);
    let q = p.src2(insn, ev);
    if two_tables(m) {
        let idx = if index_in_dest(m) { ev.reg } else { ev.vvvv };
        let s1 = if index_in_dest(m) { ev.vvvv } else { ev.reg };
        let ix = if qword_tables(m) { t } else { idx };
        let q = if qword_tables(m) { q.qidx_to_didx(odd, t, idx) } else { q };
        let sel = q.index_of(prog::splat32(table_dwords(ev.ll)));
        let q = q
            .constant(prog::splat32(table_dwords(ev.ll)))
            .step(Step::K)
            .mvex(2, 1, 0, 0x27, q.kscr, ix, Rm::Const(sel), 0, 0, None);
        let at = if ev.ll == 2 { ix } else { t };
        q
            .within(ev.ll, t, ix)
            .vpermd(r, at, Rm::Reg(s1), 0)
            .vpermd(r, at, Rm::Reg(s), q.kscr)
    } else if (m == mn::VPERMQ || m == mn::VPERMPD) && insn.ends_in_imm8() {
        p.permute_by(insn, ev, vpermq_indices(imm), r, t)
    } else if m == mn::VPERMQ || m == mn::VPERMPD {
        q.qidx_to_didx(odd, t, ev.vvvv).within(ev.ll, t, t).vpermd(r, t, Rm::Reg(s), 0)
    } else if m == mn::VPERMILPD && insn.ends_in_imm8() {
        p.permute_by(insn, ev, vpermilpd_indices(imm), r, t)
    } else if m == mn::VPERMILPD {
        let q = q.vpshufd(t, Rm::Reg(s), 0xa0, 0).shift_imm(2, t, Rm::Reg(t), 1, 0);
        let one = q.index_of(prog::splat32(1));
        let q = q
            .constant(prog::splat32(1))
            .i0f(0xDB, t, t, Rm::Const(one), 0, 0)
            .shift_imm(6, t, Rm::Reg(t), 1, 0);
        let table = prog::dwords(seq![0, 1, 0, 1, 4, 5, 4, 5, 8, 9, 8, 9, 12, 13, 12, 13]);
        let base = q.index_of(table);
        q
            .constant(table)
            .i0f(0xFE, t, t, Rm::Const(base), 0, 0)
            .vpermd(r, t, Rm::Reg(ev.vvvv), 0)
    } else if m == mn::VPERMILPS {
        let three = q.index_of(prog::splat32(3));
        let q = q.constant(prog::splat32(3)).i0f(0xDB, t, s, Rm::Const(three), 0, 0);
        let table = prog::dwords(seq![0, 0, 0, 0, 4, 4, 4, 4, 8, 8, 8, 8, 12, 12, 12, 12]);
        let base = q.index_of(table);
        q
            .constant(table)
            .i0f(0xFE, t, t, Rm::Const(base), 0, 0)
            .vpermd(r, t, Rm::Reg(ev.vvvv), 0)
    } else {
        let low = prog::splat32(if ev.ll == 1 { 7 } else { 3 });
        let mask = q.index_of(low);
        q
            .constant(low)
            .i0f(0xDB, t, ev.vvvv, Rm::Const(mask), 0, 0)
            .vpermd(r, t, Rm::Reg(s), 0)
    }
}

/// What a permute becomes.
pub open spec fn permute_outcome(insn: Decoded, ev: Ev, scratch: i32) -> Outcome {
    let p = Prog::start(scratch, insn);
    let r = p.next_temp();
    let p = p.temp();
    let t = p.next_temp();
    let p = p.temp();
    let odd = p.index_of(prog::dwords(lane_parity()));
    let p = p.constant(prog::dwords(lane_parity()));
    Outcome::Thunk(permuted(p, insn, ev, odd, r, t).commit(ev.reg, r, ev))
}

impl Em {
    fn qidx_to_didx(&mut self, odd: usize, out: u8, q: u8)
        requires
            old(self).wf(),
            odd < old(self)@.consts.len(),
        ensures
            final(self).wf(),
            final(self)@ == old(self)@.qidx_to_didx(odd, out, q),
    {
        self.vpshufd(out, Rm::Reg(q), 0xa0, 0);
        self.shift_imm(6, out, Rm::Reg(out), 1, 0);
        self.i0f(0xFE, out, out, Rm::Const(odd), 0, 0);
    }

    fn within(&mut self, ll: u8, t: u8, s: u8)
        requires
            old(self).wf(),
        ensures
            final(self).wf(),
            final(self)@ == old(self)@.within(ll, t, s),
    {
        if ll != 2 {
            let mask: usize = self.const_dw(table_dwords(ll) - 1);
            self.i0f(0xDB, t, s, Rm::Const(mask), 0, 0);
        }
    }

    fn permute_by(&mut self, insn: &Decoded, ev: &Ev, v: [u32; 16], r: u8, t: u8)
        requires
            old(self).wf(),
            insn.operable(),
            old(self)@.temps.len() < 6,
        ensures
            final(self).wf(),
            final(self)@ == old(self)@.permute_by(*insn, *ev, v@, r, t),
    {
        let c: usize = self.const_dws(v);
        let s: u8 = ev::src2(self, insn, ev);
        self.vmov(t, Rm::Const(c), 0, 0);
        self.vpermd(r, t, Rm::Reg(s), 0);
    }

    fn permute_two_tables(&mut self, insn: &Decoded, ev: &Ev, odd: usize, r: u8, t: u8)
        requires
            old(self).wf(),
            odd < old(self)@.consts.len(),
            insn.operable(),
            old(self)@.temps.len() < 6,
            two_tables(insn.head.mnemonic),
        ensures
            final(self).wf(),
            final(self)@ == permuted(old(self)@, *insn, *ev, odd, r, t),
    {
        proof {
            reveal(permuted);
        }
        let m: u16 = insn.head.mnemonic;
        let s2: u8 = ev::src2(self, insn, ev);
        // vpermi2: dest = index, vvvv = table 1; vpermt2: dest = table 1, vvvv = index
        let (idx, s1): (u8, u8) = if index_in_dest(m) {
            (ev.reg, ev.vvvv)
        } else {
            (ev.vvvv, ev.reg)
        };
        let ix: u8 = if qword_tables(m) {
            self.qidx_to_didx(odd, t, idx);
            t
        } else {
            idx
        };
        let sel: usize = self.const_dw(table_dwords(ev.ll));
        let k: u8 = self.k();
        self.mvex(2, 1, 0, 0x27, k, ix, Rm::Const(sel), 0, 0, None);  // vptestmd k, ix, [n]: table 2 lanes
        self.within(ev.ll, t, ix);
        let at: u8 = if ev.ll == 2 { ix } else { t };
        self.vpermd(r, at, Rm::Reg(s1), 0);
        self.vpermd(r, at, Rm::Reg(s2), k);
    }

    fn permute_one_table(&mut self, insn: &Decoded, ev: &Ev, odd: usize, r: u8, t: u8)
        requires
            old(self).wf(),
            odd < old(self)@.consts.len(),
            insn.operable(),
            old(self)@.temps.len() < 6,
            !two_tables(insn.head.mnemonic),
        ensures
            final(self).wf(),
            final(self)@ == permuted(old(self)@, *insn, *ev, odd, r, t),
    {
        proof {
            reveal(permuted);
        }
        let m: u16 = insn.head.mnemonic;
        let imm: u8 = insn.head.imm8;
        let by_imm = insn.op_kind(insn.head.op_count as usize - 1) == insn::KIND_IMM8;
        if m == mn::VPERMQ || m == mn::VPERMPD {
            if by_imm {
                self.permute_by(insn, ev, vpermq_table(imm), r, t);
            } else {
                // By vector: qword indices (3 bits) in vvvv, the table in rm.
                let s: u8 = ev::src2(self, insn, ev);
                self.qidx_to_didx(odd, t, ev.vvvv);
                self.within(ev.ll, t, t);
                self.vpermd(r, t, Rm::Reg(s), 0);
            }
        } else if m == mn::VPERMILPD {
            if by_imm {
                self.permute_by(insn, ev, vpermilpd_table(imm), r, t);
            } else {
                // Bit 1 of each qword index picks the qword within its 128-bit block.
                let s2: u8 = ev::src2(self, insn, ev);
                self.vpshufd(t, Rm::Reg(s2), 0xa0, 0);
                self.shift_imm(2, t, Rm::Reg(t), 1, 0);
                let one: usize = self.const_dw(1);
                self.i0f(0xDB, t, t, Rm::Const(one), 0, 0);
                self.shift_imm(6, t, Rm::Reg(t), 1, 0);
                let v: [u32; 16] = [0, 1, 0, 1, 4, 5, 4, 5, 8, 9, 8, 9, 12, 13, 12, 13];
                assert(v@ =~= seq![0u32, 1, 0, 1, 4, 5, 4, 5, 8, 9, 8, 9, 12, 13, 12, 13]);
                let base: usize = self.const_dws(v);
                self.i0f(0xFE, t, t, Rm::Const(base), 0, 0);
                self.vpermd(r, t, Rm::Reg(ev.vvvv), 0);
            }
        } else if m == mn::VPERMILPS {
            // Two bits of each dword index pick the dword within its block.
            let s2: u8 = ev::src2(self, insn, ev);
            let three: usize = self.const_dw(3);
            self.i0f(0xDB, t, s2, Rm::Const(three), 0, 0);
            let v: [u32; 16] = [0, 0, 0, 0, 4, 4, 4, 4, 8, 8, 8, 8, 12, 12, 12, 12];
            assert(v@ =~= seq![0u32, 0, 0, 0, 4, 4, 4, 4, 8, 8, 8, 8, 12, 12, 12, 12]);
            let base: usize = self.const_dws(v);
            self.i0f(0xFE, t, t, Rm::Const(base), 0, 0);
            self.vpermd(r, t, Rm::Reg(ev.vvvv), 0);
        } else {
            // vpermd / vpermps, narrow: the index uses 3 bits (ymm) or 2 (xmm)
            let s2: u8 = ev::src2(self, insn, ev);
            let low: u32 = if ev.ll == 1 { 7 } else { 3 };
            let mask: usize = self.const_dw(low);
            self.i0f(0xDB, t, ev.vvvv, Rm::Const(mask), 0, 0);
            self.vpermd(r, t, Rm::Reg(s2), 0);
        }
    }
}

/// The permutes the card composes from `vpermd` (indices, bits 3:0) and
/// `vptestmd`: two-table permutes (`vpermi2*`, `vpermt2*`), qword
/// permutes by immediate or by vector (`vpermq`, `vpermpd`), the
/// variable and qword `vpermilp*`, and the narrow `vpermd`/`vpermps`. The
/// indices of a narrow form use fewer bits.
pub fn permute(insn: &Decoded, ev: &Ev, scratch: i32) -> (res: Result<Rewrite, Unsupported>)
    requires
        insn.operable(),
    ensures
        permute_outcome(*insn, *ev, scratch).is(*insn, res),
{
    let mut em = Em::new(scratch, insn);
    let r: u8 = em.temp();
    let t: u8 = em.temp();
    let parity: [u32; 16] = [0, 1, 0, 1, 0, 1, 0, 1, 0, 1, 0, 1, 0, 1, 0, 1];
    assert(parity@ =~= lane_parity());
    let odd: usize = em.const_dws(parity);
    if two_tables(insn.head.mnemonic) {
        em.permute_two_tables(insn, ev, odd, r, t);
    } else {
        em.permute_one_table(insn, ev, odd, r, t);
    }
    ev::commit(&mut em, ev.reg, r, ev);
    Ok(Rewrite::Thunk(em.finish()))
}

} // verus!
