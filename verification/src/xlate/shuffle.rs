//! Inserts, extracts, broadcasts, shuffles and permutes.
use crate::bits;
use crate::xlate::code;
use crate::xlate::code::{MemOp, Rewrite, Rm, Unsupported, S_GPR};
use crate::xlate::em::Em;
use crate::xlate::ev;
use crate::xlate::ev::{Ev, Outcome};
use crate::xlate::insn;
use crate::xlate::insn::Decoded;
use crate::xlate::mnemonic as mn;
use crate::xlate::prog::Prog;
use vstd::prelude::*;

verus! {

/// Whether an extract takes a 256-bit half (x8 of dwords, x4 of qwords)
/// rather than a 128-bit block.
#[verifier::allow_in_spec]
pub fn extracts_half(m: u16) -> bool
    returns
        m == mn::VEXTRACTF64X4 || m == mn::VEXTRACTI64X4 || m == mn::VEXTRACTF32X8 || m
            == mn::VEXTRACTI32X8,
{
    m == mn::VEXTRACTF64X4 || m == mn::VEXTRACTI64X4 || m == mn::VEXTRACTF32X8 || m
        == mn::VEXTRACTI32X8
}

/// The block that an immediate names in a vector of length `ll`: its two low
/// bits in a full vector, its lowest in one of two blocks.
#[verifier::allow_in_spec]
pub fn block_of(ll: u8, imm: u8) -> u8
    returns
        (if ll == 2 {
            imm & 3
        } else {
            imm & 1
        }),
{
    if ll == 2 {
        imm & 3
    } else {
        imm & 1
    }
}

/// The block permute that brings the extracted block or half to the
/// bottom, where it is not there already.
pub open spec fn extract_perm(half: bool, ll: u8, imm: u8) -> Option<u8> {
    if half {
        if imm & 1 == 1 { Some(0x4e) } else { None }
    } else if block_of(ll, imm) != 0 {
        Some((block_of(ll, imm) * 0x55) as u8)
    } else {
        None
    }
}

impl Prog {
    /// `s`, or its blocks permuted, into `t`.
    pub open spec fn brought_down(self, t: u8, s: u8, perm: Option<u8>) -> Prog {
        match perm {
            Some(q) => self.vpermf32x4(t, Rm::Reg(s), q, 0),
            None => self.vmov(t, Rm::Reg(s), 0, 0),
        }
    }

    /// The scratch mask set to the dword lanes a write of `lanes` under the
    /// instruction's mask touches.
    pub open spec fn store_mask(self, aaa: u8, w: u8, lanes: u16) -> Prog {
        if aaa != 0 && w == 1 {
            self.qmask_to_dmask(aaa, lanes)
        } else if aaa != 0 {
            self.mask_imm(lanes).vexk(0x41, self.kscr, aaa)
        } else {
            self.mask_imm(lanes)
        }
    }
}

impl Em {
    /// The scratch mask set to the dword lanes a write of `lanes` under the
    /// instruction's mask touches.
    pub fn store_mask(&mut self, aaa: u8, w: u8, lanes: u16) -> (k: u8)
        requires
            old(self).wf(),
        ensures
            final(self).wf(),
            final(self)@ == old(self)@.store_mask(aaa, w, lanes),
            k == old(self)@.kscr,
    {
        if aaa != 0 && w == 1 {
            self.qmask_to_dmask(aaa, lanes)
        } else {
            let k: u8 = self.mask_imm(lanes);
            if aaa != 0 {
                self.kand(k, aaa);
            }
            k
        }
    }
}

/// What an extract becomes.
pub open spec fn extract_outcome(insn: Decoded, ev: Ev, scratch: i32) -> Outcome {
    let half = extracts_half(insn.head.mnemonic);
    let perm = extract_perm(half, ev.ll, insn.head.imm8);
    let lanes: u16 = if half { 0x00ff } else { 0x000f };
    let p = Prog::start(scratch, insn);
    match MemOp::spec_of(insn) {
        Some(m) => if ev.aaa != 0 {
            Outcome::Refused("a masked store at any alignment: the card's pair packs the lanes it stores"@)
        } else {
            let t = p.next_temp();
            Outcome::Thunk(
                p
                    .temp()
                    .brought_down(t, ev.reg, perm)
                    .mask_imm(lanes)
                    .store_unaligned(m, t, p.kscr, false, 0),
            )
        },
        None => {
            let ev2 = Ev { ll: if half { 1 } else { 0 }, ..ev };
            Outcome::Thunk(
                match perm {
                    Some(q) => {
                        let t = p.result_reg(ev.aaa != 0, ev.rm);
                        p
                            .result_temp(ev.aaa != 0)
                            .vpermf32x4(t, Rm::Reg(ev.reg), q, 0)
                            .commit(ev.rm, t, ev2)
                    },
                    None => p.commit(ev.rm, ev.reg, ev2),
                },
            )
        },
    }
}

/// vextract*: the block brought to the bottom, then packed out or committed.
pub fn extract(insn: &Decoded, ev: &Ev, scratch: i32) -> (res: Result<Rewrite, Unsupported>)
    requires
        insn.operable(),
    ensures
        extract_outcome(*insn, *ev, scratch).is(*insn, res),
{
    let mut em = Em::new(scratch, insn);
    let s: u8 = ev.reg;
    let imm: u8 = insn.head.imm8;
    let half = extracts_half(insn.head.mnemonic);
    proof {
        bits::lemma_low(imm);
    }
    let block: u8 = block_of(ev.ll, imm);
    let perm: Option<u8> = if half {
        if imm & 1 == 1 {
            Some(0x4e)
        } else {
            None
        }
    } else if block != 0 {
        Some(block * 0x55)
    } else {
        None
    };
    let lanes: u16 = if half { 0x00ff } else { 0x000f };
    match MemOp::of(insn) {
        Some(m) => {
            if ev.aaa != 0 {
                return Err(code::refuse(insn, "a masked store at any alignment: the card's pair packs the lanes it stores"));
            }
            // To memory: the block brought to the bottom of a temporary, then packed out.
            let t: u8 = em.temp();
            match perm {
                Some(q) => em.vpermf32x4(t, Rm::Reg(s), q, 0),
                None => em.vmov(t, Rm::Reg(s), 0, 0),
            }
            let k: u8 = em.mask_imm(lanes);
            em.store_unaligned(m, t, k, false, 0);
        },
        None => {
            let d: u8 = ev.rm;
            let src: u8 = match perm {
                Some(q) => {
                    let t: u8 = em.result_reg(ev.aaa != 0, d);
                    em.vpermf32x4(t, Rm::Reg(s), q, 0);
                    t
                },
                None => s,
            };
            let ll: u8 = if half { 1 } else { 0 };
            ev::commit(&mut em, d, src, &Ev { ll, ..*ev });
        },
    }
    Ok(Rewrite::Thunk(em.finish()))
}

/// Whether an insert places a 256-bit half.
#[verifier::allow_in_spec]
pub fn inserts_half(m: u16) -> bool
    returns
        m == mn::VINSERTF64X4 || m == mn::VINSERTI64X4 || m == mn::VINSERTF32X8 || m
            == mn::VINSERTI32X8,
{
    m == mn::VINSERTF64X4 || m == mn::VINSERTI64X4 || m == mn::VINSERTF32X8 || m
        == mn::VINSERTI32X8
}

/// The dword lanes the inserted block or half takes.
pub open spec fn insert_lanes(half: bool, ll: u8, imm: u8) -> u16 {
    if half {
        if imm & 1 == 1 { 0xff00 } else { 0x00ff }
    } else {
        0x000fu16 << ((4 * block_of(ll, imm)) as u8)
    }
}

/// What an insert becomes.
pub open spec fn insert_outcome(insn: Decoded, ev: Ev, scratch: i32) -> Outcome {
    let half = inserts_half(insn.head.mnemonic);
    let p = Prog::start(scratch, insn);
    let s2 = p.src2_reg(insn, ev);
    let p = p.src2(insn, ev);
    let narrow = ev.reg == s2 || ev.aaa != 0;
    let r = p.result_reg(narrow, ev.reg);
    let p = p.result_temp(narrow);
    let p = if r != ev.vvvv { p.vmov(r, Rm::Reg(ev.vvvv), 0, 0) } else { p };
    Outcome::Thunk(
        p
            .mask_imm(insert_lanes(half, ev.ll, insn.head.imm8))
            .vpermf32x4(r, Rm::Reg(s2), if half { 0x44 } else { 0x00 }, p.kscr)
            .commit(ev.reg, r, ev),
    )
}

/// vinsert*: the first source with one block replaced, in a temporary when
/// the destination is also the second source, or is masked.
pub fn insert(insn: &Decoded, ev: &Ev, scratch: i32) -> (res: Result<Rewrite, Unsupported>)
    requires
        insn.operable(),
    ensures
        insert_outcome(*insn, *ev, scratch).is(*insn, res),
{
    let mut em = Em::new(scratch, insn);
    let d: u8 = ev.reg;
    let s1: u8 = ev.vvvv;
    let imm: u8 = insn.head.imm8;
    let half = inserts_half(insn.head.mnemonic);
    let s2: u8 = ev::src2(&mut em, insn, ev);
    proof {
        bits::lemma_low(imm);
    }
    let (perm, block_mask): (u8, u16) = if half {
        (0x44, if imm & 1 == 1 { 0xff00 } else { 0x00ff })
    } else {
        let at: u8 = 4 * block_of(ev.ll, imm);
        (0x00, 0x000fu16 << at)
    };
    let r: u8 = em.result_reg(d == s2 || ev.aaa != 0, d);
    if r != s1 {
        em.vmov(r, Rm::Reg(s1), 0, 0);
    }
    let k: u8 = em.mask_imm(block_mask);
    em.vpermf32x4(r, Rm::Reg(s2), perm, k);
    ev::commit(&mut em, d, r, ev);
    Ok(Rewrite::Thunk(em.finish()))
}

/// What a broadcast from a register becomes.
pub open spec fn broadcast_reg_outcome(insn: Decoded, ev: Ev, scratch: i32) -> Outcome {
    let p = Prog::start(scratch, insn);
    let wide = ev.w == 1;
    let r = p.result_reg(ev.aaa != 0, ev.reg);
    let p = p.result_temp(ev.aaa != 0);
    let p = match insn::gpr_of(insn.reg(1)) {
        Some(g) => p.gpr_scratch(g.0, wide, S_GPR, true).broadcast_load(r, Rm::Fs(S_GPR), 0, ev.w),
        None => p
            .vpermf32x4(r, Rm::Reg(ev.rm), 0x00, 0)
            .vpshufd(r, Rm::Reg(r), if wide { 0x44 } else { 0x00 }, 0),
    };
    Outcome::Thunk(p.commit(ev.reg, r, ev))
}

/// vpbroadcastd/q, vbroadcastss/sd from a vector or general register.
pub fn broadcast_reg(insn: &Decoded, ev: &Ev, scratch: i32) -> (res: Result<Rewrite, Unsupported>)
    requires
        insn.operable(),
    ensures
        broadcast_reg_outcome(*insn, *ev, scratch).is(*insn, res),
{
    let mut em = Em::new(scratch, insn);
    let d: u8 = ev.reg;
    let wide = ev.w == 1;
    let r: u8 = em.result_reg(ev.aaa != 0, d);
    match insn::gpr(insn.op_register(1)) {
        Some((g, _)) => {
            em.gpr_scratch(g, wide, S_GPR, true);
            em.broadcast_load(r, Rm::Fs(S_GPR), 0, ev.w);
        },
        None => {
            // Block 0 to every block, then lane 0 (or lanes 0,1) to every lane.
            em.vpermf32x4(r, Rm::Reg(ev.rm), 0x00, 0);
            let sh: u8 = if wide { 0x44 } else { 0x00 };
            em.vpshufd(r, Rm::Reg(r), sh, 0);
        },
    }
    ev::commit(&mut em, d, r, ev);
    Ok(Rewrite::Thunk(em.finish()))
}

/// Whether every block of a vector of length `ll` takes the same two bits
/// of a vshufpd immediate.
pub open spec fn same_per_block(imm: u8, ll: u8) -> bool {
    let p = imm & 3;
    if ll == 2 {
        (imm >> 2) & 3 == p && (imm >> 4) & 3 == p && (imm >> 6) & 3 == p
    } else if ll == 1 {
        (imm >> 2) & 3 == p
    } else {
        true
    }
}

/// (shuffle of the first source, shuffle of the second, lanes taken from
/// the second) per 128-bit block.
pub open spec fn interleaving(m: u16, imm: u8) -> (u8, u8, u16) {
    if m == mn::VMOVLHPS {
        (0x44, 0x44, 0xcccc)
    } else if m == mn::VMOVHLPS {
        (0xee, 0xee, 0x3333)
    } else if m == mn::VUNPCKLPS || m == mn::VPUNPCKLDQ {
        (0x50, 0x50, 0xaaaa)
    } else if m == mn::VUNPCKHPS || m == mn::VPUNPCKHDQ {
        (0xfa, 0xfa, 0xaaaa)
    } else if m == mn::VUNPCKLPD || m == mn::VPUNPCKLQDQ {
        (0x44, 0x44, 0xcccc)
    } else if m == mn::VUNPCKHPD || m == mn::VPUNPCKHQDQ {
        (0xee, 0xee, 0xcccc)
    } else if m == mn::VSHUFPS {
        (imm, imm, 0xcccc)
    } else {
        (
            if imm & 1 == 1 { 0xee } else { 0x44 },
            if imm & 2 == 2 { 0xee } else { 0x44 },
            0xcccc,
        )
    }
}

/// What an interleave or a shuffle within blocks becomes.
pub open spec fn interleave_outcome(insn: Decoded, ev: Ev, scratch: i32) -> Outcome {
    let m = insn.head.mnemonic;
    if m == mn::VSHUFPD && !same_per_block(insn.head.imm8, ev.ll) {
        Outcome::Refused("vshufpd with a different selection per block: not expressed yet"@)
    } else {
        let sh = interleaving(m, insn.head.imm8);
        let p = Prog::start(scratch, insn);
        let s2 = p.src2_reg(insn, ev);
        let p = p.src2(insn, ev);
        let r = p.next_temp();
        let p = p.temp();
        let t = p.next_temp();
        Outcome::Thunk(
            p
                .temp()
                .vpshufd(r, Rm::Reg(ev.vvvv), sh.0, 0)
                .vpshufd(t, Rm::Reg(s2), sh.1, 0)
                .mask_imm(sh.2)
                .vmov(r, Rm::Reg(t), p.kscr, 0)
                .commit(ev.reg, r, ev),
        )
    }
}

fn interleaving_of(m: u16, imm: u8) -> (s: (u8, u8, u16))
    ensures
        s == interleaving(m, imm),
{
    if m == mn::VMOVLHPS {
        (0x44, 0x44, 0xcccc)  // d = s1[0,1], s2[0,1]
    } else if m == mn::VMOVHLPS {
        (0xee, 0xee, 0x3333)  // d = s2[2,3], s1[2,3]
    } else if m == mn::VUNPCKLPS || m == mn::VPUNPCKLDQ {
        (0x50, 0x50, 0xaaaa)
    } else if m == mn::VUNPCKHPS || m == mn::VPUNPCKHDQ {
        (0xfa, 0xfa, 0xaaaa)
    } else if m == mn::VUNPCKLPD || m == mn::VPUNPCKLQDQ {
        (0x44, 0x44, 0xcccc)
    } else if m == mn::VUNPCKHPD || m == mn::VPUNPCKHQDQ {
        (0xee, 0xee, 0xcccc)
    } else if m == mn::VSHUFPS {
        (imm, imm, 0xcccc)
    } else {
        // vshufpd: bit 0 picks the qword of s1 for lane 0, bit 1 that of s2 for lane 1
        let a: u8 = if imm & 1 == 1 { 0xee } else { 0x44 };
        let b: u8 = if imm & 2 == 2 { 0xee } else { 0x44 };
        (a, b, 0xcccc)
    }
}

/// Interleaves and shuffles within 128-bit blocks: two per-block dword
/// shuffles merged under a lane mask. vpshufd is the same for every block,
/// so only a vshufpd with the same two bits per block is expressed.
pub fn interleave(insn: &Decoded, ev: &Ev, scratch: i32) -> (res: Result<Rewrite, Unsupported>)
    requires
        insn.operable(),
    ensures
        interleave_outcome(*insn, *ev, scratch).is(*insn, res),
{
    let m: u16 = insn.head.mnemonic;
    let imm: u8 = insn.head.imm8;
    if m == mn::VSHUFPD {
        let p: u8 = imm & 3;
        let same = if ev.ll == 2 {
            (imm >> 2) & 3 == p && (imm >> 4) & 3 == p && (imm >> 6) & 3 == p
        } else if ev.ll == 1 {
            (imm >> 2) & 3 == p
        } else {
            true
        };
        if !same {
            return Err(
                code::refuse(
                    insn,
                    "vshufpd with a different selection per block: not expressed yet",
                ),
            );
        }
    }
    let mut em = Em::new(scratch, insn);
    let s2: u8 = ev::src2(&mut em, insn, ev);
    let (sh1, sh2, from2) = interleaving_of(m, imm);
    let r: u8 = em.temp();
    let t: u8 = em.temp();
    em.vpshufd(r, Rm::Reg(ev.vvvv), sh1, 0);
    em.vpshufd(t, Rm::Reg(s2), sh2, 0);
    let k: u8 = em.mask_imm(from2);
    em.vmov(r, Rm::Reg(t), k, 0);
    ev::commit(&mut em, ev.reg, r, ev);
    Ok(Rewrite::Thunk(em.finish()))
}

/// How many qwords valignq shifts by in a vector of length `ll`.
#[verifier::allow_in_spec]
pub fn qwords_shifted(ll: u8, imm: u8) -> u8
    returns
        (if ll == 2 {
            imm & 7
        } else if ll == 1 {
            imm & 3
        } else {
            imm & 1
        }),
{
    if ll == 2 {
        imm & 7
    } else if ll == 1 {
        imm & 3
    } else {
        imm & 1
    }
}

/// What valignq becomes.
pub open spec fn valignq_outcome(insn: Decoded, ev: Ev, scratch: i32) -> Outcome {
    let p = Prog::start(scratch, insn);
    let s2 = p.src2_reg(insn, ev);
    let p = p.src2(insn, ev);
    let n = (qwords_shifted(ev.ll, insn.head.imm8) * 2) as u8;
    let r = p.next_temp();
    let p = p.temp();
    let p = if ev.ll == 2 {
        p.valignd(r, ev.vvvv, Rm::Reg(s2), n, 0)
    } else {
        let t = p.next_temp();
        p
            .temp()
            .vmov(t, Rm::Reg(s2), 0, 0)
            .mask_imm(if ev.ll == 1 { 0xff00 } else { 0x00f0 })
            .vpermf32x4(t, Rm::Reg(ev.vvvv), if ev.ll == 1 { 0x4e } else { 0x00 }, p.kscr)
            .valignd(r, t, Rm::Reg(t), n, 0)
    };
    Outcome::Thunk(p.commit(ev.reg, r, ev))
}

/// valignq: valignd by twice the count at full width; a narrow form
/// concatenates the two sources' low lanes first.
pub fn valignq(insn: &Decoded, ev: &Ev, scratch: i32) -> (res: Result<Rewrite, Unsupported>)
    requires
        insn.operable(),
    ensures
        valignq_outcome(*insn, *ev, scratch).is(*insn, res),
{
    let mut em = Em::new(scratch, insn);
    let s1: u8 = ev.vvvv;
    let s2: u8 = ev::src2(&mut em, insn, ev);
    let imm: u8 = insn.head.imm8;
    proof {
        bits::lemma_low(imm);
    }
    let n: u8 = qwords_shifted(ev.ll, imm) * 2;
    let r: u8 = em.temp();
    if ev.ll == 2 {
        em.valignd(r, s1, Rm::Reg(s2), n, 0);
    } else {
        // t = [s2 low half | s1 low half] at the vector length, then align within it.
        let t: u8 = em.temp();
        em.vmov(t, Rm::Reg(s2), 0, 0);
        let (perm, hi): (u8, u16) = if ev.ll == 1 { (0x4e, 0xff00) } else { (0x00, 0x00f0) };
        let k: u8 = em.mask_imm(hi);
        em.vpermf32x4(t, Rm::Reg(s1), perm, k);
        em.valignd(r, t, Rm::Reg(t), n, 0);
    }
    ev::commit(&mut em, ev.reg, r, ev);
    Ok(Rewrite::Thunk(em.finish()))
}

/// The vpshufd immediate by which lane i takes lane (i + by) mod 4.
pub open spec fn rotation(by: int) -> u8 {
    if by % 4 == 0 {
        0xe4
    } else if by % 4 == 1 {
        0x39
    } else if by % 4 == 2 {
        0x4e
    } else {
        0x93
    }
}

fn rot(by: u8) -> (v: u8)
    ensures
        v == rotation(by as int),
{
    match by % 4 {
        0 => 0xe4,
        1 => 0x39,
        2 => 0x4e,
        _ => 0x93,
    }
}

/// In every block, the top `n` of its four dword lanes.
pub open spec fn top_lanes(n: int) -> u16 {
    if n <= 0 {
        0
    } else if n == 1 {
        0x8888
    } else if n == 2 {
        0xcccc
    } else {
        0xeeee
    }
}

fn top(n: u8) -> (m: u16)
    ensures
        m == top_lanes(n as int),
{
    match n {
        0 => 0,
        1 => 0x8888,
        2 => 0xcccc,
        _ => 0xeeee,
    }
}

/// In every block, the bottom `n` of its four dword lanes.
pub open spec fn bottom_lanes(n: int) -> u16 {
    if n <= 0 {
        0
    } else if n == 1 {
        0x1111
    } else if n == 2 {
        0x3333
    } else {
        0x7777
    }
}

fn bottom(n: u8) -> (m: u16)
    ensures
        m == bottom_lanes(n as int),
{
    match n {
        0 => 0,
        1 => 0x1111,
        2 => 0x3333,
        _ => 0x7777,
    }
}

/// What a byte shift within blocks becomes.
pub open spec fn byte_shift_outcome(insn: Decoded, ev: Ev, scratch: i32) -> Outcome {
    let imm = insn.head.imm8;
    let m = insn.head.mnemonic;
    if imm % 4 != 0 {
        Outcome::Refused(
            "a byte shift within 128-bit blocks that is not a whole number of dwords: not expressed yet"@,
        )
    } else {
        let n = imm as int / 4;
        let p = Prog::start(scratch, insn);
        let r = p.next_temp();
        let p = p.temp();
        let d = if ev::dest_is_vvvv(ev) { ev.vvvv } else { ev.reg };
        let b = p.src2_reg(insn, ev);
        let p = p.src2(insn, ev);
        Outcome::Thunk(
            if m == mn::VPSRLDQ {
                (if n >= 4 {
                    p.zero(r, 0, 0)
                } else {
                    p.vpshufd(r, Rm::Reg(b), rotation(n), 0).zero_lanes(r, top_lanes(n))
                }).commit(d, r, ev)
            } else if m == mn::VPSLLDQ {
                (if n >= 4 {
                    p.zero(r, 0, 0)
                } else {
                    p.vpshufd(r, Rm::Reg(b), rotation(4 - n), 0).zero_lanes(r, bottom_lanes(n))
                }).commit(d, r, ev)
            } else {
                (if n >= 8 {
                    p.zero(r, 0, 0)
                } else if n >= 4 {
                    p
                        .vpshufd(r, Rm::Reg(ev.vvvv), rotation(n - 4), 0)
                        .zero_lanes(r, top_lanes(n - 4))
                } else {
                    let t = p.next_temp();
                    p
                        .temp()
                        .vpshufd(r, Rm::Reg(b), rotation(n), 0)
                        .vpshufd(t, Rm::Reg(ev.vvvv), rotation(n), 0)
                        .mask_imm(top_lanes(n))
                        .vmov(r, Rm::Reg(t), p.kscr, 0)
                }).commit(ev.reg, r, ev)
            },
        )
    }
}

/// vpalignr, vpsrldq, vpslldq with a shift that is a whole number of
/// dwords: per-block rotations merged (or zero-filled) under a mask.
pub fn byte_shift(insn: &Decoded, ev: &Ev, scratch: i32) -> (res: Result<Rewrite, Unsupported>)
    requires
        insn.operable(),
    ensures
        byte_shift_outcome(*insn, *ev, scratch).is(*insn, res),
{
    let mut em = Em::new(scratch, insn);
    let imm: u8 = insn.head.imm8;
    let m: u16 = insn.head.mnemonic;
    if imm % 4 != 0 {
        return Err(
            code::refuse(
                insn,
                "a byte shift within 128-bit blocks that is not a whole number of dwords: not expressed yet",
            ),
        );
    }
    let n: u8 = imm / 4;
    let r: u8 = em.temp();
    let d: u8 = if ev::dest_is_vvvv(*ev) { ev.vvvv } else { ev.reg };
    let b: u8 = ev::src2(&mut em, insn, ev);
    if m == mn::VPSRLDQ {
        if n >= 4 {
            em.zero(r, 0, 0);
        } else {
            em.vpshufd(r, Rm::Reg(b), rot(n), 0);
            em.zero_lanes(r, top(n));
        }
        ev::commit(&mut em, d, r, ev);
    } else if m == mn::VPSLLDQ {
        if n >= 4 {
            em.zero(r, 0, 0);
        } else {
            em.vpshufd(r, Rm::Reg(b), rot(4 - n), 0);
            em.zero_lanes(r, bottom(n));
        }
        ev::commit(&mut em, d, r, ev);
    } else {
        // vpalignr d, a, b, n*4: per block, concat(a, b) >> n dwords
        let a: u8 = ev.vvvv;
        if n >= 8 {
            em.zero(r, 0, 0);
        } else if n >= 4 {
            em.vpshufd(r, Rm::Reg(a), rot(n - 4), 0);
            em.zero_lanes(r, top(n - 4));
        } else {
            let t: u8 = em.temp();
            em.vpshufd(r, Rm::Reg(b), rot(n), 0);
            em.vpshufd(t, Rm::Reg(a), rot(n), 0);
            let k: u8 = em.mask_imm(top(n));
            em.vmov(r, Rm::Reg(t), k, 0);
        }
        ev::commit(&mut em, ev.reg, r, ev);
    }
    Ok(Rewrite::Thunk(em.finish()))
}

} // verus!
