//! The whitelist of instructions the card has, and the general form of a
//! rewrite built on it.
use crate::xlate::code;
use crate::xlate::code::{MemOp, Rewrite, Rm, Unsupported};
use crate::xlate::em::Em;
use crate::xlate::ev;
use crate::xlate::ev::{Ev, Outcome};
use crate::xlate::insn;
use crate::xlate::insn::Decoded;
use crate::xlate::prog::{Prog, Step};
use vstd::prelude::*;

verus! {

/// How a whitelisted instruction is spelled on the card: the same
/// (map, pp, W, opcode), or another one, possibly with an immediate the
/// card form takes and the AVX-512 form has not.
#[derive(Clone, Copy, Debug, PartialEq, Eq)]
pub struct Canon {
    pub map: u8,
    pub pp: u8,
    pub w: u8,
    pub op: u8,
    pub imm: Option<u8>,
}

/// The instructions of map 0F the card spells as AVX-512 does.
pub open spec fn same_in_0f(pp: u8, w: u8, op: u8, reg: u8) -> bool {
    match (pp, w) {
        // vmovaps; vaddps vmulps vsubps; vcvtps2pd; compare of floats
        (0, 0) => op == 0x28 || op == 0x29 || op == 0x58 || op == 0x59 || op == 0x5C || op == 0x5A
            || op == 0xC2,
        // vmovdqa32; vpaddd vpsubd vpandd vpandnd vpord vpxord; the two mask
        // compares; vpsrld /2, vpsrad /4, vpslld /6 by immediate; vpshufd
        (1, 0) => op == 0x6F || op == 0x7F || op == 0xFE || op == 0xFA || op == 0xDB || op == 0xDF
            || op == 0xEB || op == 0xEF || op == 0x76 || op == 0x66 || (op == 0x72 && (reg == 2
            || reg == 4 || reg == 6)) || op == 0x70,
        // vmovapd; vaddpd vmulpd vsubpd; vmovdqa64; vpandq vpandnq vporq
        // vpxorq; compare of doubles
        (1, 1) => op == 0x28 || op == 0x29 || op == 0x58 || op == 0x59 || op == 0x5C || op == 0x6F
            || op == 0x7F || op == 0xDB || op == 0xDF || op == 0xEB || op == 0xEF || op == 0xC2,
        _ => false,
    }
}

/// Fused multiply-adds and mask blends, of map 0F38, ps or pd by W.
pub open spec fn either_width(op: u8) -> bool {
    ||| op == 0x98 || op == 0xA8 || op == 0xB8
    ||| op == 0x9A || op == 0xAA || op == 0xBA
    ||| op == 0x9C || op == 0xAC || op == 0xBC
    ||| op == 0x9E || op == 0xAE || op == 0xBE
    ||| op == 0x64 || op == 0x65
}

/// The instructions of map 0F38 the card spells as AVX-512 does.
pub open spec fn same_in_0f38(pp: u8, w: u8, op: u8) -> bool {
    &&& pp == 1
    &&& {
        ||| either_width(op)
        // vbroadcastss, vpbroadcastd, the 16-byte blocks; vpmulld, vpermd,
        // vpsrlvd, vpsravd, vpsllvd, the dword minima and maxima; vgetexpps
        ||| w == 0 && (op == 0x18 || op == 0x58 || op == 0x5A || op == 0x1A || op == 0x40 || op
            == 0x36 || op == 0x45 || op == 0x46 || op == 0x47 || op == 0x39 || op == 0x3B || op
            == 0x3D || op == 0x3F || op == 0x42)
        // vbroadcastsd, vpbroadcastq, the 32-byte halves
        ||| w == 1 && (op == 0x19 || op == 0x59 || op == 0x5B || op == 0x1B)
    }
}

/// The instructions of map 0F3A the card spells as AVX-512 does: the
/// integer compares with a predicate, vgetmantps, valignd.
pub open spec fn same_in_0f3a(pp: u8, w: u8, op: u8) -> bool {
    pp == 1 && w == 0 && (op == 0x1F || op == 0x1E || op == 0x26 || op == 0x03)
}

/// The card's spelling of the instructions it spells otherwise.
pub open spec fn respelled(map: u8, pp: u8, w: u8, op: u8) -> Option<Canon> {
    match (map, pp, w, op) {
        // the float bitwise operations: the card's integer forms
        (1, 0, 0, 0x54) => Some(Canon { map: 1, pp: 1, w: 0, op: 0xDB, imm: None }),
        (1, 0, 0, 0x55) => Some(Canon { map: 1, pp: 1, w: 0, op: 0xDF, imm: None }),
        (1, 0, 0, 0x56) => Some(Canon { map: 1, pp: 1, w: 0, op: 0xEB, imm: None }),
        (1, 0, 0, 0x57) => Some(Canon { map: 1, pp: 1, w: 0, op: 0xEF, imm: None }),
        (1, 1, 1, 0x54) => Some(Canon { map: 1, pp: 1, w: 1, op: 0xDB, imm: None }),
        (1, 1, 1, 0x55) => Some(Canon { map: 1, pp: 1, w: 1, op: 0xDF, imm: None }),
        (1, 1, 1, 0x56) => Some(Canon { map: 1, pp: 1, w: 1, op: 0xEB, imm: None }),
        (1, 1, 1, 0x57) => Some(Canon { map: 1, pp: 1, w: 1, op: 0xEF, imm: None }),
        // vpermilps imm: the same per-block shuffle as vpshufd
        (3, 1, 0, 0x04) => Some(Canon { map: 1, pp: 1, w: 0, op: 0x70, imm: None }),
        // vmovshdup, vmovsldup, vmovddup: fixed shuffles
        (1, 2, 0, 0x16) => Some(Canon { map: 1, pp: 1, w: 0, op: 0x70, imm: Some(0xf5) }),
        (1, 2, 0, 0x12) => Some(Canon { map: 1, pp: 1, w: 0, op: 0x70, imm: Some(0xa0) }),
        (1, 3, 1, 0x12) => Some(Canon { map: 1, pp: 1, w: 0, op: 0x70, imm: Some(0x44) }),
        // vpermps: the card's vpermd
        (2, 1, 0, 0x16) => Some(Canon { map: 2, pp: 1, w: 0, op: 0x36, imm: None }),
        // vcvtdq2ps and vcvtudq2ps: fixed-point conversions, no exponent adjust
        (1, 0, 0, 0x5B) => Some(Canon { map: 3, pp: 0, w: 0, op: 0xCB, imm: Some(0) }),
        (1, 3, 0, 0x7A) => Some(Canon { map: 3, pp: 0, w: 0, op: 0xCA, imm: Some(0) }),
        _ => None,
    }
}

/// The card's spelling of an EVEX (map, pp, W, opcode, ModRM.reg), where
/// the card has the instruction.
pub open spec fn canon_of(map: u8, pp: u8, w: u8, op: u8, reg: u8) -> Option<Canon> {
    let same = match map {
        1 => same_in_0f(pp, w, op, reg),
        2 => same_in_0f38(pp, w, op),
        3 => same_in_0f3a(pp, w, op),
        _ => false,
    };
    if same {
        Some(Canon { map, pp, w, op, imm: None })
    } else {
        respelled(map, pp, w, op)
    }
}

/// The whitelist: EVEX (map, pp, W, opcode[, ModRM.reg]) to the card's
/// instruction. Each row names the card instruction whose opcode line
/// in 327364-001 it was checked against.
pub fn canon(map: u8, pp: u8, w: u8, op: u8, reg: u8) -> (c: Option<Canon>)
    requires
        w <= 1,
    ensures
        c == canon_of(map, pp, w, op, reg),
{
    let same = Some(Canon { map, pp, w, op, imm: None });
    match (map, pp, w, op) {
        // vmovaps / vmovapd load, store, register (MVEX.512.0F.W0 28, 29; .66.W1 for pd)
        (1, 0, 0, 0x28) | (1, 0, 0, 0x29) | (1, 1, 1, 0x28) | (1, 1, 1, 0x29) => same,
        // vaddps vmulps vsubps (MVEX.NDS.512.0F.W0 58, 59, 5C) and the pd forms
        (1, 0, 0, 0x58) | (1, 0, 0, 0x59) | (1, 0, 0, 0x5C) => same,
        (1, 1, 1, 0x58) | (1, 1, 1, 0x59) | (1, 1, 1, 0x5C) => same,
        // vmovdqa32 / vmovdqa64 (MVEX.512.66.0F.W0 6F, 7F; W1)
        (1, 1, 0, 0x6F) | (1, 1, 0, 0x7F) | (1, 1, 1, 0x6F) | (1, 1, 1, 0x7F) => same,
        // vpaddd vpsubd vpandd vpandnd vpord vpxord (MVEX.NDS.512.66.0F.W0 FE FA DB DF EB EF)
        (1, 1, 0, 0xFE) | (1, 1, 0, 0xFA) | (1, 1, 0, 0xDB) | (1, 1, 0, 0xDF) | (1, 1, 0, 0xEB) | (
            1,
            1,
            0,
            0xEF,
        ) => same,
        // vpandq vpandnq vporq vpxorq (W1)
        (1, 1, 1, 0xDB) | (1, 1, 1, 0xDF) | (1, 1, 1, 0xEB) | (1, 1, 1, 0xEF) => same,
        // vandps vandnps vorps vxorps (EVEX.0F.W0 54 55 56 57): bitwise, the card's integer forms
        (1, 0, 0, 0x54) => to(1, 1, 0, 0xDB),
        (1, 0, 0, 0x55) => to(1, 1, 0, 0xDF),
        (1, 0, 0, 0x56) => to(1, 1, 0, 0xEB),
        (1, 0, 0, 0x57) => to(1, 1, 0, 0xEF),
        // vandpd vandnpd vorpd vxorpd (EVEX.66.0F.W1 54..57)
        (1, 1, 1, 0x54) => to(1, 1, 1, 0xDB),
        (1, 1, 1, 0x55) => to(1, 1, 1, 0xDF),
        (1, 1, 1, 0x56) => to(1, 1, 1, 0xEB),
        (1, 1, 1, 0x57) => to(1, 1, 1, 0xEF),
        // equality and greater-than of dwords into a mask (MVEX.NDS.512.66.0F.W0 76, 66)
        (1, 1, 0, 0x76) | (1, 1, 0, 0x66) => same,
        // vpsrld /2, vpsrad /4, vpslld /6 by immediate (MVEX.NDD.512.66.0F.W0 72)
        (1, 1, 0, 0x72) => if reg == 2 || reg == 4 || reg == 6 {
            same
        } else {
            None
        },
        // vpshufd imm (MVEX.512.66.0F.W0 70)
        (1, 1, 0, 0x70) => same,
        // vpermilps imm (EVEX.66.0F3A.W0 04): the same per-block shuffle as vpshufd
        (3, 1, 0, 0x04) => to(1, 1, 0, 0x70),
        // vmovshdup (F3.0F.W0 16), vmovsldup (F3.0F.W0 12), vmovddup (F2.0F.W1 12): fixed shuffles
        (1, 2, 0, 0x16) => with(1, 1, 0, 0x70, 0xf5),
        (1, 2, 0, 0x12) => with(1, 1, 0, 0x70, 0xa0),
        (1, 3, 1, 0x12) => with(1, 1, 0, 0x70, 0x44),
        // dword compares with a predicate into a mask (MVEX.NDS.512.66.0F3A.W0 1F, 1E ib)
        (3, 1, 0, 0x1F) | (3, 1, 0, 0x1E) => same,
        // float compares (MVEX.NDS.512.0F.W0 C2 ib; .66.W1)
        (1, 0, 0, 0xC2) | (1, 1, 1, 0xC2) => same,
        // vbroadcastss / vbroadcastsd from memory (MVEX.512.66.0F38.W0 18; W1 19)
        (2, 1, 0, 0x18) | (2, 1, 1, 0x19) => same,
        // vpbroadcastd / vpbroadcastq from memory (MVEX.512.66.0F38.W0 58; W1 59)
        (2, 1, 0, 0x58) | (2, 1, 1, 0x59) => same,
        // vbroadcasti32x4 (5A), vbroadcasti64x4 (W1 5B), vbroadcastf32x4 (1A), vbroadcastf64x4 (W1 1B)
        (2, 1, 0, 0x5A) | (2, 1, 1, 0x5B) | (2, 1, 0, 0x1A) | (2, 1, 1, 0x1B) => same,
        // vfmadd, vfmsub, vfnmadd, vfnmsub 132/213/231 ps (W0) and pd (W1)
        (2, 1, _, 0x98) | (2, 1, _, 0xA8) | (2, 1, _, 0xB8) | (2, 1, _, 0x9A) | (2, 1, _, 0xAA) | (
            2,
            1,
            _,
            0xBA,
        ) | (2, 1, _, 0x9C) | (2, 1, _, 0xAC) | (2, 1, _, 0xBC) | (2, 1, _, 0x9E) | (
            2,
            1,
            _,
            0xAE,
        ) | (2, 1, _, 0xBE) => same,
        // vpmulld, vpermd, vpsrlvd, vpsravd, vpsllvd, vpminsd, vpminud, vpmaxsd, vpmaxud
        // (MVEX.NDS.512.66.0F38.W0 40 36 45 46 47 39 3B 3D 3F)
        (2, 1, 0, 0x40) | (2, 1, 0, 0x36) | (2, 1, 0, 0x45) | (2, 1, 0, 0x46) | (2, 1, 0, 0x47) | (
            2,
            1,
            0,
            0x39,
        ) | (2, 1, 0, 0x3B) | (2, 1, 0, 0x3D) | (2, 1, 0, 0x3F) => same,
        // vpermps (EVEX.66.0F38.W0 16): the card's vpermd
        (2, 1, 0, 0x16) => to(2, 1, 0, 0x36),
        // vpblendmd / vpblendmq (MVEX.NDS.512.66.0F38.W0 64; W1), vblendmps / vblendmpd (65)
        (2, 1, _, 0x64) | (2, 1, _, 0x65) => same,
        // vgetexpps (MVEX.512.66.0F38.W0 42), vgetmantps (MVEX.512.66.0F3A.W0 26 ib): the same
        // opcodes and immediate as AVX-512
        (2, 1, 0, 0x42) | (3, 1, 0, 0x26) => same,
        // valignd (MVEX.NDS.512.66.0F3A.W0 03 ib)
        (3, 1, 0, 0x03) => same,
        // vcvtdq2ps (EVEX.0F.W0 5B): vcvtfxpntdq2ps (MVEX.512.0F3A.W0 CB ib), no exponent adjust,
        // MXCSR rounding
        (1, 0, 0, 0x5B) => with(3, 0, 0, 0xCB, 0x00),
        // vcvtudq2ps (EVEX.F2.0F.W0 7A): vcvtfxpntudq2ps (MVEX.512.0F3A.W0 CA ib)
        (1, 3, 0, 0x7A) => with(3, 0, 0, 0xCA, 0x00),
        // vcvtps2pd zmm, ymm/m256 (EVEX.0F.W0 5A): the card's vcvtps2pd (MVEX.512.0F.W0 5A)
        // converts the low 8 floats the same way
        (1, 0, 0, 0x5A) => same,
        _ => None,
    }
}

fn to(map: u8, pp: u8, w: u8, op: u8) -> (c: Option<Canon>)
    ensures
        c == Some(Canon { map, pp, w, op, imm: None }),
{
    Some(Canon { map, pp, w, op, imm: None })
}

fn with(map: u8, pp: u8, w: u8, op: u8, imm: u8) -> (c: Option<Canon>)
    ensures
        c == Some(Canon { map, pp, w, op, imm: Some(imm) }),
{
    Some(Canon { map, pp, w, op, imm: Some(imm) })
}

/// Whether the instruction is an aligned store.
#[verifier::allow_in_spec]
pub fn is_store(ev: Ev) -> bool
    returns
        ev.map == 1 && (ev.op == 0x29 || ev.op == 0x7F),
{
    ev.map == 1 && (ev.op == 0x29 || ev.op == 0x7F)
}

/// Whether the instruction writes a mask: a compare.
#[verifier::allow_in_spec]
pub fn writes_mask(ev: Ev) -> bool
    returns
        (ev.map == 1 && (ev.op == 0xC2 || ev.op == 0x76 || ev.op == 0x66)) || (ev.map == 3 && (ev.op
            == 0x1F || ev.op == 0x1E)),
{
    (ev.map == 1 && (ev.op == 0xC2 || ev.op == 0x76 || ev.op == 0x66)) || (ev.map == 3 && (ev.op
        == 0x1F || ev.op == 0x1E))
}

/// Whether the instruction is an aligned load or register move.
#[verifier::allow_in_spec]
pub fn is_load(ev: Ev) -> bool
    returns
        ev.map == 1 && (ev.op == 0x28 || ev.op == 0x6F),
{
    ev.map == 1 && (ev.op == 0x28 || ev.op == 0x6F)
}

/// Whether the instruction broadcasts one element from memory.
#[verifier::allow_in_spec]
pub fn broadcasts_element(ev: Ev) -> bool
    returns
        ev.map == 2 && (ev.op == 0x18 || ev.op == 0x19 || ev.op == 0x58 || ev.op == 0x59),
{
    ev.map == 2 && (ev.op == 0x18 || ev.op == 0x19 || ev.op == 0x58 || ev.op == 0x59)
}

/// Whether the instruction broadcasts a 16-byte block or a 32-byte half.
#[verifier::allow_in_spec]
pub fn broadcasts_block(ev: Ev) -> bool
    returns
        ev.map == 2 && (ev.op == 0x5A || ev.op == 0x5B || ev.op == 0x1A || ev.op == 0x1B),
{
    ev.map == 2 && (ev.op == 0x5A || ev.op == 0x5B || ev.op == 0x1A || ev.op == 0x1B)
}

/// How the second operand of a general rewrite is reached.
pub enum Staging {
    /// As the card addresses it, with this broadcast field.
    Direct(Rm, u8),
    /// A 16-byte or 32-byte aligned move: its block, broadcast.
    Block(MemOp),
    /// Through the unaligned pair.
    Pair(MemOp),
}

/// How the second operand is reached: a broadcast as it is, an aligned
/// narrow move by its block, anything else through the unaligned pair.
pub open spec fn staging(insn: Decoded, ev: Ev) -> Staging {
    match MemOp::spec_of(insn) {
        None => Staging::Direct(Rm::Reg(ev.rm), 0),
        Some(m) => if ev.b {
            Staging::Direct(Rm::Mem(m), 1)
        } else if broadcasts_element(ev) || (broadcasts_block(ev) && ev.ll == 2) {
            Staging::Direct(Rm::Mem(m), 0)
        } else if is_load(ev) && ev.ll != 2 {
            Staging::Block(m)
        } else {
            Staging::Pair(m)
        },
    }
}

impl Prog {
    /// The second operand brought where the instruction can use it.
    pub open spec fn staged(self, st: Staging, ll: u8) -> Prog {
        let t = self.next_temp();
        match st {
            Staging::Direct(_, _) => self,
            Staging::Block(m) => self.temp().load_block(t, Rm::Mem(m), 0, ll == 1),
            Staging::Pair(m) => self
                .temp()
                .lane_mask(ll)
                .load_unaligned(t, m, self.lane_k(ll), false, 0),
        }
    }

    /// After the operation: a compare has the bits of its masked-off lanes
    /// cleared; anything else has its unselected lanes zeroed under `{z}`
    /// and those above the length.
    pub open spec fn settled(self, ev: Ev, d: u8, keff: u8) -> Prog {
        let full = ev.ll == 2;
        if writes_mask(ev) {
            if !full || ev.aaa != 0 { self.vexk(0x41, ev.reg & 7, keff) } else { self }
        } else {
            let p = if ev.z {
                self.step(Step::K).vexk(0x44, self.kscr, keff).zero(d, self.kscr, grain(ev))
            } else {
                self
            };
            if full { p } else { p.zero_lanes(d, ev::upper(ev.ll)) }
        }
    }

    /// The operand the instruction then names, and its broadcast field.
    pub open spec fn staged_rm(self, st: Staging) -> (Rm, u8) {
        match st {
            Staging::Direct(rm, sss) => (rm, sss),
            Staging::Block(_) => (Rm::Reg(self.next_temp()), 0),
            Staging::Pair(_) => (Rm::Reg(self.next_temp()), 0),
        }
    }
}

/// The immediate of the card's form: its own, or the instruction's.
pub open spec fn immediate(insn: Decoded, c: Canon) -> Option<u8> {
    match c.imm {
        Some(i) => Some(i),
        None => if insn.ends_in_imm8() { Some(insn.head.imm8) } else { None },
    }
}

/// Whether the elements of the result, which the mask selects, are not those
/// of the card's instruction: vmovddup, which the card does by dwords.
#[verifier::allow_in_spec]
pub fn uneven(ev: Ev) -> bool
    returns
        ev.map == 1 && ev.pp == 3 && ev.w == 1 && ev.op == 0x12,
{
    ev.map == 1 && ev.pp == 3 && ev.w == 1 && ev.op == 0x12
}

/// Whether the result has dwords (0) or qwords (1), which the mask selects.
/// vcvtps2pd makes qwords of dwords.
#[verifier::allow_in_spec]
pub fn grain(ev: Ev) -> u8
    returns
        (if ev.map == 1 && ev.pp == 0 && ev.w == 0 && ev.op == 0x5A { 1u8 } else { ev.w }),
{
    if ev.map == 1 && ev.pp == 0 && ev.w == 0 && ev.op == 0x5A {
        1
    } else {
        ev.w
    }
}

/// What the general form of a rewrite is.
pub open spec fn generic_outcome(insn: Decoded, ev: Ev, c: Canon, scratch: i32) -> Outcome {
    let full = ev.ll == 2;
    let kn = ev.aaa;
    let p = Prog::start(scratch, insn);
    if is_store(ev) {
        match MemOp::spec_of(insn) {
            None => Outcome::Refused("store without a memory operand"@),
            Some(m) => if kn != 0 {
                Outcome::Refused("a masked store at any alignment: the card's pair packs the lanes it stores"@)
            } else {
                Outcome::Thunk(
                    p.lane_mask(ev.ll).store_unaligned(m, ev.reg, p.lane_k(ev.ll), false, 0),
                )
            },
        }
    } else if uneven(ev) && kn != 0 {
        Outcome::Refused(
            "a mask over other elements than the card's instruction has: not expressed yet"@,
        )
    } else {
        let d = if ev::dest_is_vvvv(ev) { ev.vvvv } else { ev.reg };
        let st = staging(insn, ev);
        let rm = p.staged_rm(st);
        let p = p.staged(st, ev.ll);
        let keff = if full { kn } else { p.kscr };
        let p = if full { p } else { p.masked_lanes(ev::vl_lanes(ev.ll, ev.w), kn) };
        let reg = if ev::dest_is_vvvv(ev) { ev.reg & 7 } else { ev.reg };
        let p = p.mvex(
            c.map,
            c.pp,
            c.w,
            c.op,
            reg,
            ev.vvvv,
            rm.0,
            keff,
            rm.1,
            immediate(insn, c),
        );
        Outcome::Thunk(p.settled(ev, d, keff))
    }
}

/// The second operand, staged into a temporary when the card cannot
/// address it as the program did.
fn stage(em: &mut Em, insn: &Decoded, ev: &Ev) -> (rm: (Rm, u8))
    requires
        old(em).wf(),
        insn.operable(),
        old(em)@.temps.len() < code::ZMM_SLOTS,
    ensures
        final(em).wf(),
        final(em)@ == old(em)@.staged(staging(*insn, *ev), ev.ll),
        rm == old(em)@.staged_rm(staging(*insn, *ev)),
{
    let full = ev.ll == 2;
    match MemOp::of(insn) {
        None => (Rm::Reg(ev.rm), 0),
        Some(m) => {
            if ev.b {
                (Rm::Mem(m), 1)
            } else if broadcasts_element(*ev) || (broadcasts_block(*ev) && full) {
                (Rm::Mem(m), 0)
            } else if is_load(*ev) && !full {
                // An aligned 16-byte or 32-byte move: its block, broadcast, is
                // exactly the bytes it reads, at the alignment it guarantees.
                let t: u8 = em.temp();
                em.load_block(t, Rm::Mem(m), 0, ev.ll == 1);
                (Rm::Reg(t), 0)
            } else {
                let t: u8 = em.temp();
                let k: u8 = em.lane_mask(ev.ll);
                em.load_unaligned(t, m, k, false, 0);
                (Rm::Reg(t), 0)
            }
        },
    }
}

/// What is left after the operation: a compare has the bits of its
/// masked-off lanes cleared, as AVX-512 defines them; anything else has
/// its unselected lanes zeroed under `{z}` and those above the length.
fn settle(em: &mut Em, ev: &Ev, d: u8, keff: u8)
    requires
        old(em).wf(),
    ensures
        final(em).wf(),
        final(em)@ == old(em)@.settled(*ev, d, keff),
{
    let full = ev.ll == 2;
    if writes_mask(*ev) {
        if !full || ev.aaa != 0 {
            em.kand(ev.reg & 7, keff);
        }
    } else {
        if ev.z {
            let kz: u8 = em.k();
            em.knot(kz, keff);
            em.zero(d, kz, grain(*ev));
        }
        if !full {
            em.zero_lanes(d, ev::upper(ev.ll));
        }
    }
}

/// The general masked form of a whitelisted instruction: the 512-bit
/// operation under a lane mask, its memory operand staged when the card
/// could not address it, the unselected or upper lanes zeroed after.
pub fn generic(insn: &Decoded, ev: &Ev, c: Canon, scratch: i32) -> (res: Result<
    Rewrite,
    Unsupported,
>)
    requires
        insn.operable(),
    ensures
        generic_outcome(*insn, *ev, c, scratch).is(*insn, res),
{
    let mut em = Em::new(scratch, insn);
    let kn: u8 = ev.aaa;
    let full = ev.ll == 2;
    let mem = MemOp::of(insn);
    if is_store(*ev) {
        // A narrow store: the pack pair writes the lanes of the length.
        return match mem {
            None => Err(code::refuse(insn, "store without a memory operand")),
            Some(m) => {
                if kn != 0 {
                    return Err(
                        code::refuse(
                            insn,
                            "a masked store at any alignment: the card's pair packs the lanes it stores",
                        ),
                    );
                }
                let k: u8 = em.lane_mask(ev.ll);
                em.store_unaligned(m, ev.reg, k, false, 0);
                Ok(Rewrite::Thunk(em.finish()))
            },
        };
    }
    if uneven(*ev) && kn != 0 {
        return Err(
            code::refuse(
                insn,
                "a mask over other elements than the card's instruction has: not expressed yet",
            ),
        );
    }
    let d: u8 = if ev::dest_is_vvvv(*ev) { ev.vvvv } else { ev.reg };
    let imm: Option<u8> = match c.imm {
        Some(i) => Some(i),
        None => {
            if insn.op_kind(insn.head.op_count as usize - 1) == insn::KIND_IMM8 {
                Some(insn.head.imm8)
            } else {
                None
            }
        },
    };
    let (rm, sss): (Rm, u8) = stage(&mut em, insn, ev);
    // The mask the operation runs under.
    let keff: u8 = if full {
        kn
    } else {
        em.masked_lanes(ev::vl_lanes(ev.ll, ev.w), kn)
    };
    let reg: u8 = if ev::dest_is_vvvv(*ev) { ev.reg & 7 } else { ev.reg };
    em.mvex(c.map, c.pp, c.w, c.op, reg, ev.vvvv, rm, keff, sss, imm);
    settle(&mut em, ev, d, keff);
    Ok(Rewrite::Thunk(em.finish()))
}

} // verus!
