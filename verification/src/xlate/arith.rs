//! Moves, bitwise functions, scalar arithmetic, minimum and maximum,
//! and the integer operations the card spells otherwise.
use crate::bits;
use crate::xlate::code;
use crate::xlate::code::{MemOp, Rewrite, Rm, Unsupported, S_GPR};
use crate::xlate::em::Em;
use crate::xlate::ev;
use crate::xlate::ev::{Ev, Outcome};
use crate::xlate::insn;
use crate::xlate::insn::Decoded;
use crate::xlate::mnemonic as mn;
use crate::xlate::prog;
use crate::xlate::prog::{Prog, Step};
use vstd::prelude::*;

verus! {

/// All ones in every lane.
pub open spec fn ones() -> Seq<u8> {
    prog::splat32(0xffff_ffff)
}

impl Prog {
    /// A two-input boolean function of (b, c) from its 4-bit truth table
    /// (bit index = b<<1 | c), into `t`.
    #[verifier::opaque]
    pub open spec fn bool2(self, t: u8, b: u8, c: u8, table: u8, w: u8) -> Prog {
        let i = self.index_of(ones());
        let flipped = |p: Prog| p.constant(ones()).i0f(0xEF, t, t, Rm::Const(p.index_of(ones())), 0, 0);
        let f = table & 0xf;
        if f == 0x0 {
            self.zero(t, 0, w)
        } else if f == 0xf {
            self.constant(ones()).vmov(t, Rm::Const(i), 0, 0)
        } else if f == 0xc {
            self.vmov(t, Rm::Reg(b), 0, w)
        } else if f == 0xa {
            self.vmov(t, Rm::Reg(c), 0, w)
        } else if f == 0x8 {
            self.i0f(0xDB, t, b, Rm::Reg(c), 0, w)
        } else if f == 0xe {
            self.i0f(0xEB, t, b, Rm::Reg(c), 0, w)
        } else if f == 0x6 {
            self.i0f(0xEF, t, b, Rm::Reg(c), 0, w)
        } else if f == 0x2 {
            self.i0f(0xDF, t, b, Rm::Reg(c), 0, w)
        } else if f == 0x4 {
            self.i0f(0xDF, t, c, Rm::Reg(b), 0, w)
        } else if f == 0x9 {
            flipped(self.i0f(0xEF, t, b, Rm::Reg(c), 0, w))
        } else if f == 0x1 {
            flipped(self.i0f(0xEB, t, b, Rm::Reg(c), 0, w))
        } else if f == 0x7 {
            flipped(self.i0f(0xDB, t, b, Rm::Reg(c), 0, w))
        } else if f == 0x3 {
            self.constant(ones()).i0f(0xEF, t, b, Rm::Const(i), 0, 0)
        } else if f == 0x5 {
            self.constant(ones()).i0f(0xEF, t, c, Rm::Const(i), 0, 0)
        } else if f == 0xb {
            self
                .constant(ones())
                .i0f(0xEF, t, b, Rm::Const(i), 0, 0)
                .i0f(0xEB, t, t, Rm::Reg(c), 0, w)
        } else {
            self
                .constant(ones())
                .i0f(0xEF, t, c, Rm::Const(i), 0, 0)
                .i0f(0xEB, t, t, Rm::Reg(b), 0, w)
        }
    }
}

impl Em {
    /// t = ~t.
    fn flip(&mut self, t: u8)
        requires
            old(self).wf(),
        ensures
            final(self).wf(),
            final(self)@ == old(self)@.constant(ones()).i0f(
                0xEF,
                t,
                t,
                Rm::Const(old(self)@.index_of(ones())),
                0,
                0,
            ),
    {
        let i: usize = self.const_dw(0xffff_ffff);
        self.i0f(0xEF, t, t, Rm::Const(i), 0, 0);
    }

    /// A two-input boolean function of (b, c) from its 4-bit truth table
    /// (bit index = b<<1 | c), into `t`.
    fn bool2(&mut self, t: u8, b: u8, c: u8, table: u8, w: u8)
        requires
            old(self).wf(),
        ensures
            final(self).wf(),
            final(self)@ == old(self)@.bool2(t, b, c, table, w),
    {
        proof {
            reveal(Prog::bool2);
        }
        let f: u8 = table & 0xf;
        assert(f <= 0xf) by {
            bits::lemma_low(table);
        }
        match f {
            0x0 => self.zero(t, 0, w),
            0xf => {
                let i: usize = self.const_dw(0xffff_ffff);
                self.vmov(t, Rm::Const(i), 0, 0);
            },
            0xc => self.vmov(t, Rm::Reg(b), 0, w),
            0xa => self.vmov(t, Rm::Reg(c), 0, w),
            0x8 => self.i0f(0xDB, t, b, Rm::Reg(c), 0, w),
            0xe => self.i0f(0xEB, t, b, Rm::Reg(c), 0, w),
            0x6 => self.i0f(0xEF, t, b, Rm::Reg(c), 0, w),
            0x2 => self.i0f(0xDF, t, b, Rm::Reg(c), 0, w),  // ~b & c
            0x4 => self.i0f(0xDF, t, c, Rm::Reg(b), 0, w),  // ~c & b
            0x9 => {
                // ~(b ^ c)
                self.i0f(0xEF, t, b, Rm::Reg(c), 0, w);
                self.flip(t);
            },
            0x1 => {
                // ~(b | c)
                self.i0f(0xEB, t, b, Rm::Reg(c), 0, w);
                self.flip(t);
            },
            0x7 => {
                // ~(b & c)
                self.i0f(0xDB, t, b, Rm::Reg(c), 0, w);
                self.flip(t);
            },
            0x3 => {
                // ~b
                let i: usize = self.const_dw(0xffff_ffff);
                self.i0f(0xEF, t, b, Rm::Const(i), 0, 0);
            },
            0x5 => {
                // ~c
                let i: usize = self.const_dw(0xffff_ffff);
                self.i0f(0xEF, t, c, Rm::Const(i), 0, 0);
            },
            0xb => {
                // ~b | c
                let i: usize = self.const_dw(0xffff_ffff);
                self.i0f(0xEF, t, b, Rm::Const(i), 0, 0);
                self.i0f(0xEB, t, t, Rm::Reg(c), 0, w);
            },
            _ => {
                // b | ~c
                let i: usize = self.const_dw(0xffff_ffff);
                self.i0f(0xEF, t, c, Rm::Const(i), 0, 0);
                self.i0f(0xEB, t, t, Rm::Reg(b), 0, w);
            },
        }
    }
}

/// What a vpternlog becomes.
pub open spec fn ternlog_outcome(insn: Decoded, ev: Ev, scratch: i32) -> Outcome {
    let a = ev.reg;
    let imm = insn.head.imm8;
    let w = ev.w;
    let p = Prog::start(scratch, insn);
    let narrow = ev.aaa != 0 || ev.ll != 2;
    Outcome::Thunk(
        if imm == 0xff {
            let i = p.index_of(ones());
            let p = p.constant(ones());
            let r = p.result_reg(narrow, a);
            p.result_temp(narrow).vmov(r, Rm::Const(i), 0, 0).commit(a, r, ev)
        } else if imm == 0 {
            let r = p.result_reg(narrow, a);
            p.result_temp(narrow).zero(r, 0, w).commit(a, r, ev)
        } else {
            let c = p.src2_reg(insn, ev);
            let p = p.src2(insn, ev);
            let t1 = p.next_temp();
            let p = p.temp();
            let t2 = p.next_temp();
            let p = p.temp();
            let p = if imm == 0x96 {
                p.i0f(0xEF, t1, a, Rm::Reg(ev.vvvv), 0, w).i0f(0xEF, t1, t1, Rm::Reg(c), 0, w)
            } else {
                p
                    .bool2(t1, ev.vvvv, c, imm >> 4, w)
                    .bool2(t2, ev.vvvv, c, imm & 0xf, w)
                    .i0f(0xDB, t1, a, Rm::Reg(t1), 0, w)
                    .i0f(0xDF, t2, a, Rm::Reg(t2), 0, w)
                    .i0f(0xEB, t1, t1, Rm::Reg(t2), 0, w)
            };
            p.commit(a, t1, ev)
        },
    )
}

/// vpternlogd/q: the truth table split on the first operand into two
/// two-input functions, f(a,b,c) = (a & f(1,b,c)) | (~a & f(0,b,c)).
pub fn ternlog(insn: &Decoded, ev: &Ev, scratch: i32) -> (res: Result<Rewrite, Unsupported>)
    requires
        insn.operable(),
    ensures
        ternlog_outcome(*insn, *ev, scratch).is(*insn, res),
{
    let mut em = Em::new(scratch, insn);
    let a: u8 = ev.reg;  // also the destination
    let b: u8 = ev.vvvv;
    let imm: u8 = insn.head.imm8;
    let w: u8 = ev.w;
    if imm == 0xff {
        let i: usize = em.const_dw(0xffff_ffff);
        let r: u8 = em.result_reg(ev.aaa != 0 || ev.ll != 2, a);
        em.vmov(r, Rm::Const(i), 0, 0);
        ev::commit(&mut em, a, r, ev);
    } else if imm == 0x00 {
        let r: u8 = em.result_reg(ev.aaa != 0 || ev.ll != 2, a);
        em.zero(r, 0, w);
        ev::commit(&mut em, a, r, ev);
    } else {
        let c: u8 = ev::src2(&mut em, insn, ev);
        let t1: u8 = em.temp();
        let t2: u8 = em.temp();
        if imm == 0x96 {
            em.i0f(0xEF, t1, a, Rm::Reg(b), 0, w);
            em.i0f(0xEF, t1, t1, Rm::Reg(c), 0, w);
        } else {
            em.bool2(t1, b, c, imm >> 4, w);
            em.bool2(t2, b, c, imm & 0xf, w);
            em.i0f(0xDB, t1, a, Rm::Reg(t1), 0, w);
            em.i0f(0xDF, t2, a, Rm::Reg(t2), 0, w);
            em.i0f(0xEB, t1, t1, Rm::Reg(t2), 0, w);
        }
        ev::commit(&mut em, a, t1, ev);
    }
    Ok(Rewrite::Thunk(em.finish()))
}

/// Whether `m` moves bytes or words.
#[verifier::allow_in_spec]
pub fn byte_wise(m: u16) -> bool
    returns
        m == mn::VMOVDQU8 || m == mn::VMOVDQU16,
{
    m == mn::VMOVDQU8 || m == mn::VMOVDQU16
}

/// A full-width register-to-register move in place: vmovaps or vmovapd, as
/// a load or as a store, with the mask kept.
pub open spec fn register_move(bytes: Seq<u8>, len: int, w: u8, load: bool) -> Seq<u8> {
    bytes
        .take(len)
        .update(1, (bytes[1] & 0xfc) | 1)
        .update(2, (bytes[2] & 0xf8) | w)
        .update(3, bytes[3] & 0x0f)
        .update(4, if load { 0x28u8 } else { 0x29u8 })
}

/// What an unaligned move becomes.
pub open spec fn unaligned_move_outcome(
    insn: Decoded,
    bytes: Seq<u8>,
    ev: Ev,
    scratch: i32,
) -> Outcome {
    let bw = byte_wise(insn.head.mnemonic);
    let w = if bw { 0 } else { ev.w };
    let full = ev.ll == 2;
    let load = insn.kind(0) == insn::KIND_REGISTER;
    let p = Prog::start(scratch, insn);
    if bw && ev.aaa != 0 {
        Outcome::Refused("a byte or word mask: the card masks 32-bit lanes only"@)
    } else {
        match MemOp::spec_of(insn) {
            None => if full && !ev.z {
                Outcome::InPlace(register_move(bytes, insn.head.len as int, w, load))
            } else {
                Outcome::Thunk(
                    p.commit(
                        if load { ev.reg } else { ev.rm },
                        if load { ev.rm } else { ev.reg },
                        (Ev { w, ..ev }),
                    ),
                )
            },
            Some(m) => {
                let k = p.lane_k(ev.ll);
                if load && ev.aaa != 0 {
                    let t = p.next_temp();
                    Outcome::Thunk(
                        p
                            .temp()
                            .lane_mask(ev.ll)
                            .load_unaligned(t, m, k, false, 0)
                            .commit(ev.reg, t, (Ev { w, ..ev })),
                    )
                } else if load {
                    let p = p.lane_mask(ev.ll).load_unaligned(ev.reg, m, k, false, 0);
                    Outcome::Thunk(if full { p } else { p.zero_lanes(ev.reg, ev::upper(ev.ll)) })
                } else if ev.aaa != 0 {
                    Outcome::Refused("a masked store at any alignment: the card's pair packs the lanes it stores"@)
                } else {
                    Outcome::Thunk(p.lane_mask(ev.ll).store_unaligned(m, ev.reg, k, false, 0))
                }
            },
        }
    }
}

/// The unaligned moves: through the card's unpack and pack pairs, or, from
/// register to register, as the aligned move, which does the same thing. The
/// pairs move the lanes a mask selects one after the other, so a masked load
/// goes through a temporary, and a masked store is refused.
pub fn unaligned_move(insn: &Decoded, bytes: &[u8], ev: &Ev, scratch: i32) -> (res: Result<
    Rewrite,
    Unsupported,
>)
    requires
        insn.operable(),
        5 <= insn.head.len <= bytes@.len(),
    ensures
        unaligned_move_outcome(*insn, bytes@, *ev, scratch).is(*insn, res),
{
    let bw = byte_wise(insn.head.mnemonic);
    if bw && ev.aaa != 0 {
        return Err(
            code::refuse(insn, "a byte or word mask: the card masks 32-bit lanes only"),
        );
    }
    let w: u8 = if bw { 0 } else { ev.w };
    let full = ev.ll == 2;
    let load = insn.op_kind(0) == insn::KIND_REGISTER;
    match MemOp::of(insn) {
        None => {
            if full && !ev.z {
                let mut v: Vec<u8> = vstd::slice::slice_to_vec(
                    vstd::slice::slice_subrange(bytes, 0, insn.head.len),
                );
                assert(v@ =~= bytes@.take(insn.head.len as int));
                v.set(1, (bytes[1] & 0xfc) | 1);
                v.set(2, (bytes[2] & 0xf8) | w);
                v.set(3, bytes[3] & 0x0f);
                v.set(4, if load { 0x28 } else { 0x29 });
                return Ok(Rewrite::InPlace(v));
            }
            let mut em = Em::new(scratch, insn);
            let (d, s): (u8, u8) = if load { (ev.reg, ev.rm) } else { (ev.rm, ev.reg) };
            ev::commit(&mut em, d, s, &Ev { w, ..*ev });
            Ok(Rewrite::Thunk(em.finish()))
        },
        Some(m) => {
            if !load && ev.aaa != 0 {
                return Err(
                    code::refuse(
                        insn,
                        "a masked store at any alignment: the card's pair packs the lanes it stores",
                    ),
                );
            }
            let mut em = Em::new(scratch, insn);
            let d: u8 = ev.reg;
            if load && ev.aaa != 0 {
                let t: u8 = em.temp();
                let k: u8 = em.lane_mask(ev.ll);
                em.load_unaligned(t, m, k, false, 0);
                ev::commit(&mut em, d, t, &Ev { w, ..*ev });
            } else if load {
                let k: u8 = em.lane_mask(ev.ll);
                em.load_unaligned(d, m, k, false, 0);
                if !full {
                    em.zero_lanes(d, ev::upper(ev.ll));
                }
            } else {
                let k: u8 = em.lane_mask(ev.ll);
                em.store_unaligned(m, d, k, false, 0);
            }
            Ok(Rewrite::Thunk(em.finish()))
        },
    }
}

impl Prog {
    /// The scratch mask set to `lanes` under the instruction's mask.
    pub open spec fn masked_lanes(self, lanes: u16, aaa: u8) -> Prog {
        if aaa != 0 {
            self.mask_imm(lanes).vexk(0x41, self.kscr, aaa)
        } else {
            self.mask_imm(lanes)
        }
    }
}

impl Em {
    /// The scratch mask set to `lanes` under the instruction's mask.
    pub fn masked_lanes(&mut self, lanes: u16, aaa: u8) -> (k: u8)
        requires
            old(self).wf(),
        ensures
            final(self).wf(),
            final(self)@ == old(self)@.masked_lanes(lanes, aaa),
            k == old(self)@.kscr,
    {
        let k: u8 = self.mask_imm(lanes);
        if aaa != 0 {
            self.kand(k, aaa);
        }
        k
    }
}

/// What a scalar move becomes.
pub open spec fn scalar_move_outcome(insn: Decoded, ev: Ev, scratch: i32) -> Outcome {
    let w = ev.w;
    let p = Prog::start(scratch, insn);
    if ev.z && ev.aaa != 0 {
        Outcome::Refused("masked scalar move with zeroing: not expressed yet"@)
    } else {
        Outcome::Thunk(
            match MemOp::spec_of(insn) {
                Some(m) => if insn.kind(0) == insn::KIND_REGISTER {
                    let k = if ev.aaa != 0 { p.kscr } else { 0 };
                    let p = if ev.aaa != 0 { p.masked_lanes(1, ev.aaa) } else { p };
                    p
                        .broadcast_load(ev.reg, Rm::Mem(m), k, w)
                        .zero_lanes(ev.reg, if w == 1 { 0xfffc } else { 0xfffe })
                } else {
                    p
                        .store_mask(ev.aaa, w, if w == 1 { 3 } else { 1 })
                        .store_unaligned(m, ev.reg, p.kscr, false, 0)
                },
                None => {
                    let p = p.masked_lanes(1, ev.aaa);
                    let p = if ev.reg != ev.rm {
                        p.vmov(ev.reg, Rm::Reg(ev.rm), p.kscr, w)
                    } else {
                        p
                    };
                    p.scalar_rest(ev.reg, ev.vvvv, w)
                },
            },
        )
    }
}

/// vmovss / vmovsd: lane 0 from memory with everything else zero (or, under
/// a mask that is off, unchanged in lane 0 and zero above); lane 0 packed
/// out; or, between registers, the low 128 bits of the first source except
/// lane 0 from the second, zero above.
pub fn scalar_move(insn: &Decoded, ev: &Ev, scratch: i32) -> (res: Result<Rewrite, Unsupported>)
    requires
        insn.operable(),
    ensures
        scalar_move_outcome(*insn, *ev, scratch).is(*insn, res),
{
    let mut em = Em::new(scratch, insn);
    let w: u8 = ev.w;
    if ev.z && ev.aaa != 0 {
        return Err(code::refuse(insn, "masked scalar move with zeroing: not expressed yet"));
    }
    let load = insn.op_kind(0) == insn::KIND_REGISTER;
    match MemOp::of(insn) {
        Some(m) => {
            if load {
                let d: u8 = ev.reg;
                let k: u8 = if ev.aaa != 0 { em.masked_lanes(1, ev.aaa) } else { 0 };
                em.broadcast_load(d, Rm::Mem(m), k, w);
                em.zero_lanes(d, if w == 1 { 0xfffc } else { 0xfffe });
            } else {
                let dl: u16 = if w == 1 { 3 } else { 1 };
                let k: u8 = em.store_mask(ev.aaa, w, dl);
                em.store_unaligned(m, ev.reg, k, false, 0);
            }
        },
        None => {
            let d: u8 = ev.reg;
            let k0: u8 = em.masked_lanes(1, ev.aaa);
            if d != ev.rm {
                em.vmov(d, Rm::Reg(ev.rm), k0, w);
            }
            em.scalar_rest(d, ev.vvvv, w);
        },
    }
    Ok(Rewrite::Thunk(em.finish()))
}

/// What scalar arithmetic becomes.
pub open spec fn scalar_op_outcome(insn: Decoded, ev: Ev, scratch: i32) -> Outcome {
    let w = ev.w;
    let p = Prog::start(scratch, insn);
    if ev.z && ev.aaa != 0 {
        Outcome::Refused("masked scalar operation with zeroing: not expressed yet"@)
    } else if ev.b {
        Outcome::Refused("scalar operation with embedded rounding: not expressed yet"@)
    } else {
        let pp: u8 = if ev.map == 1 { w } else { 1 };
        let (rm, sss): (Rm, u8) = match MemOp::spec_of(insn) {
            Some(m) => (Rm::Mem(m), 1),
            None => (Rm::Reg(ev.rm), 0),
        };
        Outcome::Thunk(
            p
                .masked_lanes(1, ev.aaa)
                .mvex(ev.map, pp, w, ev.op, ev.reg, ev.vvvv, rm, p.kscr, sss, None)
                .scalar_rest(ev.reg, ev.vvvv, w),
        )
    }
}

/// The scalar arithmetic: the 512-bit operation in lane 0, the rest of
/// the low 128 bits from the first source, zero above. The packed opcode
/// is the scalar one minus the F3/F2 prefix: same map, same byte.
pub fn scalar_op(insn: &Decoded, ev: &Ev, scratch: i32) -> (res: Result<Rewrite, Unsupported>)
    requires
        insn.operable(),
    ensures
        scalar_op_outcome(*insn, *ev, scratch).is(*insn, res),
{
    let mut em = Em::new(scratch, insn);
    let w: u8 = ev.w;
    if ev.z && ev.aaa != 0 {
        return Err(
            code::refuse(insn, "masked scalar operation with zeroing: not expressed yet"),
        );
    }
    if ev.b {
        return Err(
            code::refuse(insn, "scalar operation with embedded rounding: not expressed yet"),
        );
    }
    let pp: u8 = if ev.map == 1 { w } else { 1 };
    let (rm, sss): (Rm, u8) = match MemOp::of(insn) {
        Some(m) => (Rm::Mem(m), 1),  // {1to16}: reads the scalar's bytes exactly
        None => (Rm::Reg(ev.rm), 0),
    };
    let k: u8 = em.masked_lanes(1, ev.aaa);
    em.mvex(ev.map, pp, w, ev.op, ev.reg, ev.vvvv, rm, k, sss, None);
    em.scalar_rest(ev.reg, ev.vvvv, w);
    Ok(Rewrite::Thunk(em.finish()))
}

impl Prog {
    /// r = s2; r{s1 <ordered> s2} = s1 (max: s1 > s2, which is s2 < s1).
    pub open spec fn pick(self, r: u8, s1: u8, s2: u8, is_max: bool, w: u8) -> Prog {
        let p = self.step(Step::K).vmov(r, Rm::Reg(s2), 0, w);
        let p = if is_max {
            p.compare(p.kscr, s2, Rm::Reg(s1), 1, 0, w)
        } else {
            p.compare(p.kscr, s1, Rm::Reg(s2), 1, 0, w)
        };
        p.vmov(r, Rm::Reg(s1), p.kscr, w)
    }
}

impl Em {
    /// r = s2; r{s1 <ordered> s2} = s1 (max: s1 > s2, which is s2 < s1).
    fn pick(&mut self, r: u8, s1: u8, s2: u8, is_max: bool, w: u8)
        requires
            old(self).wf(),
        ensures
            final(self).wf(),
            final(self)@ == old(self)@.pick(r, s1, s2, is_max, w),
    {
        let kc: u8 = self.k();
        self.vmov(r, Rm::Reg(s2), 0, w);
        if is_max {
            self.compare(kc, s2, Rm::Reg(s1), 1, 0, w);
        } else {
            self.compare(kc, s1, Rm::Reg(s2), 1, 0, w);
        }
        self.vmov(r, Rm::Reg(s1), kc, w);
    }
}

/// What a packed minimum or maximum becomes.
pub open spec fn minmax_outcome(insn: Decoded, ev: Ev, scratch: i32) -> Outcome {
    let is_max = insn.head.mnemonic == mn::VMAXPS || insn.head.mnemonic == mn::VMAXPD;
    let p = Prog::start(scratch, insn);
    let s2 = p.src2_reg(insn, ev);
    let p = p.src2(insn, ev);
    let r = p.next_temp();
    Outcome::Thunk(p.temp().pick(r, ev.vvvv, s2, is_max, ev.w).commit(ev.reg, r, ev))
}

/// vmaxps / vminps with AVX-512 semantics (the second source when either
/// is NaN or both are zero): the second source everywhere, the first where
/// an ordered compare holds.
pub fn minmax(insn: &Decoded, ev: &Ev, scratch: i32) -> (res: Result<Rewrite, Unsupported>)
    requires
        insn.operable(),
    ensures
        minmax_outcome(*insn, *ev, scratch).is(*insn, res),
{
    let mut em = Em::new(scratch, insn);
    let is_max = insn.head.mnemonic == mn::VMAXPS || insn.head.mnemonic == mn::VMAXPD;
    let s2: u8 = ev::src2(&mut em, insn, ev);
    let r: u8 = em.temp();
    em.pick(r, ev.vvvv, s2, is_max, ev.w);
    ev::commit(&mut em, ev.reg, r, ev);
    Ok(Rewrite::Thunk(em.finish()))
}

/// What a scalar minimum or maximum becomes.
pub open spec fn scalar_minmax_outcome(insn: Decoded, ev: Ev, scratch: i32) -> Outcome {
    let is_max = insn.head.mnemonic == mn::VMAXSS || insn.head.mnemonic == mn::VMAXSD;
    if ev.aaa != 0 {
        Outcome::Refused("masked scalar min/max: not expressed yet"@)
    } else {
        let p = Prog::start(scratch, insn);
        let s2 = p.src2_reg(insn, ev);
        let p = match MemOp::spec_of(insn) {
            Some(m) => p.temp().broadcast_load(s2, Rm::Mem(m), 0, ev.w),
            None => p,
        };
        let r = p.next_temp();
        Outcome::Thunk(
            p
                .temp()
                .pick(r, ev.vvvv, s2, is_max, ev.w)
                .scalar_result(ev.reg, r, ev.vvvv, ev.w),
        )
    }
}

/// vmaxss / vminss and the sd forms: the packed pick, lane 0 taken.
pub fn scalar_minmax(insn: &Decoded, ev: &Ev, scratch: i32) -> (res: Result<Rewrite, Unsupported>)
    requires
        insn.operable(),
    ensures
        scalar_minmax_outcome(*insn, *ev, scratch).is(*insn, res),
{
    let mut em = Em::new(scratch, insn);
    let w: u8 = ev.w;
    if ev.aaa != 0 {
        return Err(code::refuse(insn, "masked scalar min/max: not expressed yet"));
    }
    let is_max = insn.head.mnemonic == mn::VMAXSS || insn.head.mnemonic == mn::VMAXSD;
    let s2: u8 = match MemOp::of(insn) {
        Some(m) => {
            let t: u8 = em.temp();
            em.broadcast_load(t, Rm::Mem(m), 0, w);
            t
        },
        None => ev.rm,
    };
    let r: u8 = em.temp();
    em.pick(r, ev.vvvv, s2, is_max, w);
    em.scalar_result(ev.reg, r, ev.vvvv, w);
    Ok(Rewrite::Thunk(em.finish()))
}

/// What vmovd or vmovq into a vector register becomes.
pub open spec fn movdq_to_vector(insn: Decoded, d: u8, wide: bool, scratch: i32) -> Outcome {
    let p = Prog::start(scratch, insn);
    let w: u8 = if wide { 1 } else { 0 };
    let above: u16 = if wide { 0xfffc } else { 0xfffe };
    if insn.kind(1) == insn::KIND_MEMORY {
        Outcome::Thunk(
            p.broadcast_load(d, Rm::Mem(MemOp::spec_of(insn)->0), 0, w).zero_lanes(d, above),
        )
    } else if insn.kind(1) != insn::KIND_REGISTER {
        Outcome::Refused("vmovd operand shape"@)
    } else {
        match (insn::vreg_of(insn.reg(1)), insn::gpr_of(insn.reg(1))) {
            (Some(s), _) => Outcome::Thunk(
                p.mask_imm(1).vmov(d, Rm::Reg(s), p.kscr, 1).zero_lanes(d, 0xfffc),
            ),
            (None, Some(g)) => Outcome::Thunk(
                p
                    .gpr_scratch(g.0, wide, S_GPR, true)
                    .broadcast_load(d, Rm::Fs(S_GPR), 0, w)
                    .zero_lanes(d, above),
            ),
            (None, None) => Outcome::Refused("vmovd source is not a general register"@),
        }
    }
}

/// What vmovd or vmovq out of a vector register becomes.
pub open spec fn movdq_from_vector(insn: Decoded, wide: bool, scratch: i32) -> Outcome {
    let p = Prog::start(scratch, insn);
    match insn::vreg_of(insn.reg(1)) {
        None => Outcome::Refused("vmovd source is not a vector register"@),
        Some(s) => {
            let p = p.mask_imm(if wide { 3 } else { 1 });
            if insn.kind(0) == insn::KIND_MEMORY {
                Outcome::Thunk(p.store_unaligned(MemOp::spec_of(insn)->0, s, p.kscr, false, 0))
            } else if insn.kind(0) != insn::KIND_REGISTER {
                Outcome::Refused("vmovd operand shape"@)
            } else {
                match insn::gpr_of(insn.reg(0)) {
                    None => Outcome::Refused("vmovd destination is not a general register"@),
                    Some(g) => Outcome::Thunk(
                        p
                            .mvex(2, 1, 0, 0xD0, s, 0, Rm::Fs(S_GPR), p.kscr, 0, None)
                            .gpr_result(g.0, wide, S_GPR),
                    ),
                }
            }
        },
    }
}

/// What vmovd or vmovq becomes.
pub open spec fn movdq_outcome(insn: Decoded, scratch: i32) -> Outcome {
    let wide = insn.head.mnemonic == mn::VMOVQ;
    match insn::vreg_of(insn.reg(0)) {
        Some(d) => if insn.kind(0) == insn::KIND_REGISTER {
            movdq_to_vector(insn, d, wide, scratch)
        } else {
            movdq_from_vector(insn, wide, scratch)
        },
        None => movdq_from_vector(insn, wide, scratch),
    }
}

fn vector_from(insn: &Decoded, d: u8, wide: bool, scratch: i32) -> (res: Result<
    Rewrite,
    Unsupported,
>)
    requires
        insn.operable(),
    ensures
        movdq_to_vector(*insn, d, wide, scratch).is(*insn, res),
{
    let mut em = Em::new(scratch, insn);
    let w: u8 = if wide { 1 } else { 0 };
    let above: u16 = if wide { 0xfffc } else { 0xfffe };
    let kind: u8 = insn.op_kind(1);
    let src = if kind == insn::KIND_MEMORY {
        assert(insn.kind(1) == insn::KIND_MEMORY);
        match MemOp::of(insn) {
            Some(m) => Rm::Mem(m),
            None => Rm::Fs(S_GPR),
        }
    } else if kind == insn::KIND_REGISTER {
        let reg: u8 = insn.op_register(1);
        match (insn::vreg(reg), insn::gpr(reg)) {
            (Some(s), _) => {
                // vmovq xmm, xmm: the low 64 bits, the rest zero
                let k: u8 = em.mask_imm(1);
                em.vmov(d, Rm::Reg(s), k, 1);
                em.zero_lanes(d, 0xfffc);
                return Ok(Rewrite::Thunk(em.finish()));
            },
            (None, Some((r, _))) => {
                em.gpr_scratch(r, wide, S_GPR, true);
                Rm::Fs(S_GPR)
            },
            (None, None) => {
                return Err(code::refuse(insn, "vmovd source is not a general register"));
            },
        }
    } else {
        return Err(code::refuse(insn, "vmovd operand shape"));
    };
    em.broadcast_load(d, src, 0, w);
    em.zero_lanes(d, above);
    Ok(Rewrite::Thunk(em.finish()))
}

/// vmovd / vmovq between a vector register and a general register or
/// memory: through the scratch area, since the card has no such
/// instruction.
pub fn movdq(insn: &Decoded, scratch: i32) -> (res: Result<Rewrite, Unsupported>)
    requires
        insn.operable(),
    ensures
        movdq_outcome(*insn, scratch).is(*insn, res),
{
    let wide = insn.head.mnemonic == mn::VMOVQ;
    let kind: u8 = insn.op_kind(0);
    if kind == insn::KIND_REGISTER {
        if let Some(d) = insn::vreg(insn.op_register(0)) {
            return vector_from(insn, d, wide, scratch);
        }
    }
    match insn::vreg(insn.op_register(1)) {
        None => Err(code::refuse(insn, "vmovd source is not a vector register")),
        Some(s) => {
            let mut em = Em::new(scratch, insn);
            let k: u8 = em.mask_imm(if wide { 3 } else { 1 });
            if kind == insn::KIND_MEMORY {
                assert(insn.kind(0) == insn::KIND_MEMORY);
                match MemOp::of(insn) {
                    Some(m) => em.store_unaligned(m, s, k, false, 0),
                    None => {},
                }
            } else if kind == insn::KIND_REGISTER {
                match insn::gpr(insn.op_register(0)) {
                    Some((r, _)) => {
                        // Lane 0 packed into the (line-aligned) scratch slot, then into the register.
                        em.mvex(2, 1, 0, 0xD0, s, 0, Rm::Fs(S_GPR), k, 0, None);
                        em.gpr_result(r, wide, S_GPR);
                    },
                    None => {
                        return Err(
                            code::refuse(insn, "vmovd destination is not a general register"),
                        );
                    },
                }
            } else {
                return Err(code::refuse(insn, "vmovd operand shape"));
            }
            Ok(Rewrite::Thunk(em.finish()))
        },
    }
}

/// Even and odd dword lanes.
pub const EVEN: u16 = 0x5555;
pub const ODD: u16 = 0xaaaa;

impl Prog {
    /// The qwords of `s` shifted right by `n` into `r`, `t` clobbered.
    pub open spec fn shift_right_q(self, r: u8, s: u8, t: u8, n: u8, arith: bool) -> Prog {
        let k = self.kscr;
        if n >= 64 {
            if arith {
                self.vpshufd(r, Rm::Reg(s), 0xf5, 0).shift_imm(4, r, Rm::Reg(r), 31, 0)
            } else {
                self.zero(r, 0, 0)
            }
        } else if n >= 32 {
            let p = self
                .vpshufd(r, Rm::Reg(s), 0xf5, 0)
                .mask_imm(EVEN)
                .shift_imm(if arith { 4 } else { 2 }, r, Rm::Reg(r), (n - 32) as u8, k)
                .mask_imm(ODD);
            if arith {
                p.shift_imm(4, r, Rm::Reg(r), 31, k)
            } else {
                p.zero(r, k, 0)
            }
        } else if n == 0 {
            self.vmov(r, Rm::Reg(s), 0, 0)
        } else {
            let p = self.shift_imm(2, r, Rm::Reg(s), n, 0);
            let p = if arith {
                p.mask_imm(ODD).shift_imm(4, r, Rm::Reg(s), n, k)
            } else {
                p
            };
            p
                .vpshufd(t, Rm::Reg(s), 0xf5, 0)
                .shift_imm(6, t, Rm::Reg(t), (32 - n) as u8, 0)
                .mask_imm(EVEN)
                .i0f(0xEB, r, r, Rm::Reg(t), k, 0)
        }
    }

    /// The qwords of `s` shifted left by `n` into `r`, `t` clobbered.
    pub open spec fn shift_left_q(self, r: u8, s: u8, t: u8, n: u8) -> Prog {
        let k = self.kscr;
        if n >= 64 {
            self.zero(r, 0, 0)
        } else if n >= 32 {
            self
                .vpshufd(r, Rm::Reg(s), 0xa0, 0)
                .mask_imm(ODD)
                .shift_imm(6, r, Rm::Reg(r), (n - 32) as u8, k)
                .mask_imm(EVEN)
                .zero(r, k, 0)
        } else if n == 0 {
            self.vmov(r, Rm::Reg(s), 0, 0)
        } else {
            self
                .shift_imm(6, r, Rm::Reg(s), n, 0)
                .vpshufd(t, Rm::Reg(s), 0xa0, 0)
                .shift_imm(2, t, Rm::Reg(t), (32 - n) as u8, 0)
                .mask_imm(ODD)
                .i0f(0xEB, r, r, Rm::Reg(t), k, 0)
        }
    }
}

impl Em {
    fn shift_right_q(&mut self, r: u8, s: u8, t: u8, n: u8, arith: bool)
        requires
            old(self).wf(),
        ensures
            final(self).wf(),
            final(self)@ == old(self)@.shift_right_q(r, s, t, n, arith),
    {
        if n >= 64 {
            if arith {
                self.vpshufd(r, Rm::Reg(s), 0xf5, 0);
                self.shift_imm(4, r, Rm::Reg(r), 31, 0);
            } else {
                self.zero(r, 0, 0);
            }
        } else if n >= 32 {
            // low <- high >> (n-32); high <- 0 or sign
            self.vpshufd(r, Rm::Reg(s), 0xf5, 0);  // high dword in both lanes
            let k: u8 = self.mask_imm(EVEN);
            self.shift_imm(if arith { 4 } else { 2 }, r, Rm::Reg(r), n - 32, k);
            let k: u8 = self.mask_imm(ODD);
            if arith {
                self.shift_imm(4, r, Rm::Reg(r), 31, k);
            } else {
                self.zero(r, k, 0);
            }
        } else if n == 0 {
            self.vmov(r, Rm::Reg(s), 0, 0);
        } else {
            // even lanes: (lo >> n) | (hi << (32-n)); odd lanes: hi >> n (logical or arithmetic)
            self.shift_imm(2, r, Rm::Reg(s), n, 0);
            if arith {
                let k: u8 = self.mask_imm(ODD);
                self.shift_imm(4, r, Rm::Reg(s), n, k);
            }
            self.vpshufd(t, Rm::Reg(s), 0xf5, 0);
            self.shift_imm(6, t, Rm::Reg(t), 32 - n, 0);
            let k: u8 = self.mask_imm(EVEN);
            self.i0f(0xEB, r, r, Rm::Reg(t), k, 0);
        }
    }

    fn shift_left_q(&mut self, r: u8, s: u8, t: u8, n: u8)
        requires
            old(self).wf(),
        ensures
            final(self).wf(),
            final(self)@ == old(self)@.shift_left_q(r, s, t, n),
    {
        if n >= 64 {
            self.zero(r, 0, 0);
        } else if n >= 32 {
            self.vpshufd(r, Rm::Reg(s), 0xa0, 0);  // low dword in both lanes
            let k: u8 = self.mask_imm(ODD);
            self.shift_imm(6, r, Rm::Reg(r), n - 32, k);
            let k: u8 = self.mask_imm(EVEN);
            self.zero(r, k, 0);
        } else if n == 0 {
            self.vmov(r, Rm::Reg(s), 0, 0);
        } else {
            // odd lanes: (hi << n) | (lo >> (32-n)); even lanes: lo << n
            self.shift_imm(6, r, Rm::Reg(s), n, 0);
            self.vpshufd(t, Rm::Reg(s), 0xa0, 0);
            self.shift_imm(2, t, Rm::Reg(t), 32 - n, 0);
            let k: u8 = self.mask_imm(ODD);
            self.i0f(0xEB, r, r, Rm::Reg(t), k, 0);
        }
    }
}

/// What a qword shift by immediate becomes.
pub open spec fn shift_q_outcome(insn: Decoded, ev: Ev, scratch: i32) -> Outcome {
    let m = insn.head.mnemonic;
    let n = insn.head.imm8;
    let p = Prog::start(scratch, insn);
    let s = p.src2_reg(insn, ev);
    let p = p.src2(insn, ev);
    let r = p.next_temp();
    let p = p.temp();
    let t = p.next_temp();
    let p = p.temp();
    let p = if m == mn::VPSRLQ || m == mn::VPSRAQ {
        p.shift_right_q(r, s, t, n, m == mn::VPSRAQ)
    } else {
        p.shift_left_q(r, s, t, n)
    };
    Outcome::Thunk(p.commit(ev.vvvv, r, (Ev { w: 1, ..ev })))
}

/// vpsrlq / vpsllq / vpsraq by immediate on dword lanes: the two halves
/// of each qword shifted and combined.
pub fn shift_q(insn: &Decoded, ev: &Ev, scratch: i32) -> (res: Result<Rewrite, Unsupported>)
    requires
        insn.operable(),
    ensures
        shift_q_outcome(*insn, *ev, scratch).is(*insn, res),
{
    let mut em = Em::new(scratch, insn);
    let m: u16 = insn.head.mnemonic;
    let s: u8 = ev::src2(&mut em, insn, ev);
    let n: u8 = insn.head.imm8;
    let r: u8 = em.temp();
    let t: u8 = em.temp();
    if m == mn::VPSRLQ || m == mn::VPSRAQ {
        em.shift_right_q(r, s, t, n, m == mn::VPSRAQ);
    } else {
        em.shift_left_q(r, s, t, n);
    }
    ev::commit(&mut em, ev.vvvv, r, &Ev { w: 1, ..*ev });
    Ok(Rewrite::Thunk(em.finish()))
}

/// What vpabsd becomes.
pub open spec fn abs_d_outcome(insn: Decoded, ev: Ev, scratch: i32) -> Outcome {
    let p = Prog::start(scratch, insn);
    let s = p.src2_reg(insn, ev);
    let p = p.src2(insn, ev);
    let r = p.next_temp();
    let p = p.temp();
    let t = p.next_temp();
    Outcome::Thunk(
        p
            .temp()
            .shift_imm(4, t, Rm::Reg(s), 31, 0)
            .i0f(0xEF, r, s, Rm::Reg(t), 0, 0)
            .i0f(0xFA, r, r, Rm::Reg(t), 0, 0)
            .commit(ev.reg, r, ev),
    )
}

/// vpabsd: (s ^ (s >> 31)) - (s >> 31).
pub fn abs_d(insn: &Decoded, ev: &Ev, scratch: i32) -> (res: Result<Rewrite, Unsupported>)
    requires
        insn.operable(),
    ensures
        abs_d_outcome(*insn, *ev, scratch).is(*insn, res),
{
    let mut em = Em::new(scratch, insn);
    let s: u8 = ev::src2(&mut em, insn, ev);
    let r: u8 = em.temp();
    let t: u8 = em.temp();
    em.shift_imm(4, t, Rm::Reg(s), 31, 0);
    em.i0f(0xEF, r, s, Rm::Reg(t), 0, 0);
    em.i0f(0xFA, r, r, Rm::Reg(t), 0, 0);
    ev::commit(&mut em, ev.reg, r, ev);
    Ok(Rewrite::Thunk(em.finish()))
}

/// What vpmuludq becomes.
pub open spec fn muludq_outcome(insn: Decoded, ev: Ev, scratch: i32) -> Outcome {
    let p = Prog::start(scratch, insn);
    let s2 = p.src2_reg(insn, ev);
    let p = p.src2(insn, ev);
    let r = p.next_temp();
    let p = p.temp();
    let t = p.next_temp();
    Outcome::Thunk(
        p
            .temp()
            .i38(0x40, r, ev.vvvv, Rm::Reg(s2), 0)
            .i38(0x86, t, ev.vvvv, Rm::Reg(s2), 0)
            .vpshufd(t, Rm::Reg(t), 0xa0, 0)
            .mask_imm(ODD)
            .vmov(r, Rm::Reg(t), p.kscr, 0)
            .commit(ev.reg, r, (Ev { w: 1, ..ev })),
    )
}

/// vpmuludq: the 64-bit product of the even dword lanes, as low and high
/// 32-bit products (vpmulld, vpmulhud) interleaved.
pub fn muludq(insn: &Decoded, ev: &Ev, scratch: i32) -> (res: Result<Rewrite, Unsupported>)
    requires
        insn.operable(),
    ensures
        muludq_outcome(*insn, *ev, scratch).is(*insn, res),
{
    let mut em = Em::new(scratch, insn);
    let s1: u8 = ev.vvvv;
    let s2: u8 = ev::src2(&mut em, insn, ev);
    let r: u8 = em.temp();
    let t: u8 = em.temp();
    em.i38(0x40, r, s1, Rm::Reg(s2), 0);
    em.i38(0x86, t, s1, Rm::Reg(s2), 0);
    em.vpshufd(t, Rm::Reg(t), 0xa0, 0);
    let k: u8 = em.mask_imm(ODD);
    em.vmov(r, Rm::Reg(t), k, 0);
    ev::commit(&mut em, ev.reg, r, &Ev { w: 1, ..*ev });
    Ok(Rewrite::Thunk(em.finish()))
}

/// The card's variable shift for a dword shift by a count in a register.
#[verifier::allow_in_spec]
pub fn variable_shift(m: u16) -> u8
    returns
        (if m == mn::VPSLLD {
            0x47u8
        } else if m == mn::VPSRLD {
            0x45
        } else {
            0x46
        }),
{
    if m == mn::VPSLLD {
        0x47
    } else if m == mn::VPSRLD {
        0x45
    } else {
        0x46
    }
}

/// A count that shifts everything out.
pub const COUNT_ALL: u32 = 0xffff_ffff;

/// What a dword shift by a count in a register or memory becomes.
pub open spec fn shift_by_xmm_outcome(insn: Decoded, ev: Ev, scratch: i32) -> Outcome {
    let p = Prog::start(scratch, insn);
    let t = p.next_temp();
    let r = p.temp().next_temp();
    let p = p.temp().temp();
    let p = match MemOp::spec_of(insn) {
        Some(m) => p
            .broadcast_load(t, Rm::Mem(m), 0, 0)
            .broadcast_load(r, Rm::Mem(m.spec_plus(4)), 0, 0),
        None => p
            .vpermf32x4(t, Rm::Reg(ev.rm), 0x00, 0)
            .vpshufd(r, Rm::Reg(t), 0x55, 0)
            .vpshufd(t, Rm::Reg(t), 0x00, 0),
    };
    let c = p.index_of(prog::splat32(COUNT_ALL));
    Outcome::Thunk(
        p
            .constant(prog::splat32(COUNT_ALL))
            .step(Step::K)
            .mvex(2, 1, 0, 0x27, p.kscr, r, Rm::Reg(r), 0, 0, None)
            .vmov(t, Rm::Const(c), p.kscr, 0)
            .i38(variable_shift(insn.head.mnemonic), r, ev.vvvv, Rm::Reg(t), 0)
            .commit(ev.reg, r, ev),
    )
}

/// vpslld / vpsrld / vpsrad by the count in an xmm register or memory:
/// the count broadcast, then the card's variable shift (counts of 32 or
/// more give zero, or the sign, as AVX-512 does). The count is 64 bits; a
/// high dword other than zero means a count of more than 32.
pub fn shift_by_xmm(insn: &Decoded, ev: &Ev, scratch: i32) -> (res: Result<Rewrite, Unsupported>)
    requires
        insn.operable(),
    ensures
        shift_by_xmm_outcome(*insn, *ev, scratch).is(*insn, res),
{
    let mut em = Em::new(scratch, insn);
    let t: u8 = em.temp();
    let r: u8 = em.temp();
    match MemOp::of(insn) {
        Some(m) => {
            em.broadcast_load(t, Rm::Mem(m), 0, 0);
            em.broadcast_load(r, Rm::Mem(m.plus(4)), 0, 0);
        },
        None => {
            em.vpermf32x4(t, Rm::Reg(ev.rm), 0x00, 0);
            em.vpshufd(r, Rm::Reg(t), 0x55, 0);
            em.vpshufd(t, Rm::Reg(t), 0x00, 0);
        },
    }
    let c: usize = em.const_dw(COUNT_ALL);
    let k: u8 = em.k();
    em.mvex(2, 1, 0, 0x27, k, r, Rm::Reg(r), 0, 0, None);  // vptestmd k, r, r
    em.vmov(t, Rm::Const(c), k, 0);
    em.i38(variable_shift(insn.head.mnemonic), r, ev.vvvv, Rm::Reg(t), 0);
    ev::commit(&mut em, ev.reg, r, ev);
    Ok(Rewrite::Thunk(em.finish()))
}

} // verus!
