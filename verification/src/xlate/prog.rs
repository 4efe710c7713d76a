//! What an out-of-line sequence is.
//!
//! A sequence is described by a [`Prog`]: the steps it takes, in order.
//! [`Prog::body`] says which bytes those steps are, with what is saved
//! before the first step that clobbers it and restored after the last.
use crate::bits;
use crate::xlate::code;
use crate::xlate::code::{
    Body, FixupKind, MemOp, Mvex, Rm, S_FLAGS, S_K, S_RAX, S_RCX, ZMM_SLOTS,
};
use crate::xlate::insn;
use crate::xlate::insn::Decoded;
use vstd::prelude::*;

verus! {

/// One step of a sequence.
pub enum Step {
    /// rax is about to be clobbered.
    Rax,
    /// rcx is about to be clobbered.
    Rcx,
    /// The scratch mask register is about to be clobbered.
    K,
    /// The flags are about to be clobbered.
    Flags,
    /// The vector register becomes a temporary.
    Temp(u8),
    /// An instruction of the card.
    Mvex(Mvex),
    /// A mask instruction.
    VexK { op: u8, reg: u8, rm: u8 },
    /// A general register to or from the scratch area.
    Gpr { r: u8, wide: bool, off: i32, store: bool },
    /// Instructions with register operands only.
    Raw(Seq<u8>),
    /// An instruction with a memory operand and eax in ModRM.reg.
    Legacy { opcodes: Seq<u8>, m: MemOp },
    /// An x87 or integer instruction on the scratch area.
    FsOp { opcodes: Seq<u8>, reg: u8, off: i32 },
    /// A general register loaded from the scratch area after the restores.
    Tail { r: u8, wide: bool, off: i32 },
}

/// What the steps so far have emitted and saved.
pub struct Low {
    pub body: Body,
    /// Vector registers saved.
    pub slots: nat,
    pub rax: bool,
    pub rcx: bool,
    pub k: bool,
    pub flags: bool,
    pub tail: Seq<(u8, bool, i32)>,
}

impl Low {
    pub open spec fn empty() -> Low {
        Low {
            body: Body::empty(),
            slots: 0,
            rax: false,
            rcx: false,
            k: false,
            flags: false,
            tail: seq![],
        }
    }

    pub open spec fn raw(self, bytes: Seq<u8>) -> Low {
        Low { body: self.body.raw(bytes), ..self }
    }

    /// rax saved, unless it was before.
    pub open spec fn save_rax(self, scratch: i32) -> Low {
        if self.rax {
            self
        } else {
            Low { rax: true, ..self }.raw(code::gpr_bytes(scratch, 0, true, S_RAX, true))
        }
    }

    /// rcx saved, unless it was before.
    pub open spec fn save_rcx(self, scratch: i32) -> Low {
        if self.rcx {
            self
        } else {
            Low { rcx: true, ..self }.raw(code::gpr_bytes(scratch, 1, true, S_RCX, true))
        }
    }

    /// The scratch mask register saved through rax, unless it was before.
    pub open spec fn save_k(self, scratch: i32, kscr: u8) -> Low {
        if self.k {
            self
        } else {
            Low { k: true, ..self }.save_rax(scratch).raw(code::vexk_bytes(0x93, 0, kscr)).raw(
                code::gpr_bytes(scratch, 0, true, S_K, true),
            )
        }
    }

    /// The flags saved through rax (`lahf; seto al`), unless they were before.
    pub open spec fn save_flags(self, scratch: i32) -> Low {
        if self.flags {
            self
        } else {
            Low { flags: true, ..self }.save_rax(scratch).raw(seq![0x9f, 0x0f, 0x90, 0xc0]).raw(
                code::gpr_bytes(scratch, 0, true, S_FLAGS, true),
            )
        }
    }

    /// rax and rcx given back what they held, where they were saved and the
    /// memory operand is addressed by them.
    pub open spec fn recover(self, scratch: i32, m: MemOp) -> Low {
        let low = if self.rax && m.spec_uses(0) {
            self.raw(code::gpr_bytes(scratch, 0, true, S_RAX, false))
        } else {
            self
        };
        if self.rcx && m.spec_uses(1) {
            low.raw(code::gpr_bytes(scratch, 1, true, S_RCX, false))
        } else {
            low
        }
    }

    /// Before an instruction of the card: what its operand is addressed by
    /// recovered.
    pub open spec fn ready(self, scratch: i32, m: Mvex) -> Low {
        match m.rm {
            Rm::Mem(x) => self.recover(scratch, x),
            _ => self,
        }
    }

    pub open spec fn mvex(self, scratch: i32, m: Mvex) -> Low {
        match m.patch() {
            Some(what) => Low { body: self.body.patched(m.bytes(scratch), 6, what), ..self },
            None => self.raw(m.bytes(scratch)),
        }
    }

    /// After one more step.
    pub open spec fn after(self, scratch: i32, kscr: u8, s: Step) -> Low {
        match s {
            Step::Rax => self.save_rax(scratch),
            Step::Rcx => self.save_rcx(scratch),
            Step::K => self.save_k(scratch, kscr),
            Step::Flags => self.save_flags(scratch),
            Step::Temp(z) => Low { slots: self.slots + 1, ..self }.raw(
                slot_move(0x29, z, self.slots as int).bytes(scratch),
            ),
            Step::Mvex(m) => self.ready(scratch, m).mvex(scratch, m),
            Step::VexK { op, reg, rm } => self.raw(code::vexk_bytes(op, reg, rm)),
            Step::Gpr { r, wide, off, store } => self.raw(
                code::gpr_bytes(scratch, r, wide, off, store),
            ),
            Step::Raw(bytes) => self.raw(bytes),
            Step::Legacy { opcodes, m } => {
                let low = self.recover(scratch, m);
                match m.rip {
                    Some(target) => Low {
                        body: low.body.patched(
                            opcodes + code::mem_bytes(0, m),
                            opcodes.len() as int + 1,
                            FixupKind::Rip(target),
                        ),
                        ..low
                    },
                    None => low.raw(opcodes + code::mem_bytes(0, m)),
                }
            },
            Step::FsOp { opcodes, reg, off } => self.raw(
                code::fs_op_bytes(scratch, opcodes, reg, off),
            ),
            Step::Tail { r, wide, off } => Low { tail: self.tail.push((r, wide, off)), ..self },
        }
    }

    /// The body with everything saved restored, in this order: the
    /// temporaries, last first; the flags (`add al, 127; sahf`); the
    /// scratch mask; rcx; rax; then the general registers the sequence
    /// produces.
    pub open spec fn finished(self, scratch: i32, kscr: u8, temps: Seq<u8>) -> Body {
        let b = reloaded(self.body, scratch, temps);
        let b = if self.flags {
            b.raw(code::gpr_bytes(scratch, 0, true, S_FLAGS, false)).raw(seq![0x04, 0x7f, 0x9e])
        } else {
            b
        };
        let b = if self.k {
            b.raw(code::gpr_bytes(scratch, 0, true, S_K, false)).raw(
                code::vexk_bytes(0x92, kscr, 0),
            )
        } else {
            b
        };
        let b = if self.rcx {
            b.raw(code::gpr_bytes(scratch, 1, true, S_RCX, false))
        } else {
            b
        };
        let b = if self.rax {
            b.raw(code::gpr_bytes(scratch, 0, true, S_RAX, false))
        } else {
            b
        };
        tail_loaded(b, scratch, self.tail)
    }
}

/// `vmovaps` between a vector register and a slot of the scratch area
/// (MVEX.512.0F.W0 28 loads, 29 stores).
pub open spec fn slot_move(op: u8, z: u8, slot: int) -> Mvex {
    Mvex {
        map: 1,
        pp: 0,
        w: 0,
        op,
        reg: z,
        vvvv: 0,
        rm: Rm::Fs((64 * slot) as i32),
        k: 0,
        sss: 0,
        imm: None,
    }
}

/// The temporaries reloaded, the last one first.
pub open spec fn reloaded(b: Body, scratch: i32, temps: Seq<u8>) -> Body
    decreases temps.len(),
{
    if temps.len() == 0 {
        b
    } else {
        reloaded(
            b.raw(slot_move(0x28, temps.last(), temps.len() - 1).bytes(scratch)),
            scratch,
            temps.drop_last(),
        )
    }
}

/// The general registers of `tail` loaded, in order.
pub open spec fn tail_loaded(b: Body, scratch: i32, tail: Seq<(u8, bool, i32)>) -> Body
    decreases tail.len(),
{
    if tail.len() == 0 {
        b
    } else {
        let t = tail.last();
        tail_loaded(b, scratch, tail.drop_last()).raw(
            code::gpr_bytes(scratch, t.0, t.1, t.2, false),
        )
    }
}

/// The first index of `c` at or after `i`.
pub open spec fn find_from(consts: Seq<Seq<u8>>, c: Seq<u8>, i: int) -> Option<int>
    decreases consts.len() - i,
{
    if i < 0 || i >= consts.len() {
        None
    } else if consts[i] == c {
        Some(i)
    } else {
        find_from(consts, c, i + 1)
    }
}

/// The least register number from `z` on that is not in use.
pub open spec fn free_from(used: Seq<u8>, z: int) -> u8
    decreases 32 - z,
{
    if z >= 31 || !used.contains(z as u8) {
        z as u8
    } else {
        free_from(used, z + 1)
    }
}

/// The greatest mask register from `k` down to 1 that is not in use; k7
/// when there is none.
pub open spec fn free_mask(used: Seq<u8>, k: int) -> u8
    decreases k,
{
    if k <= 0 {
        7
    } else if !used.contains(k as u8) {
        k as u8
    } else {
        free_mask(used, k - 1)
    }
}

/// The vector registers among the first `n` operands.
pub open spec fn operand_vregs(insn: Decoded, n: int) -> Seq<u8>
    decreases n,
{
    if n <= 0 {
        seq![]
    } else {
        let before = operand_vregs(insn, n - 1);
        match insn::vreg_of(insn.reg(n - 1)) {
            Some(z) => if insn.kind(n - 1) == insn::KIND_REGISTER {
                before.push(z)
            } else {
                before
            },
            None => before,
        }
    }
}

/// The mask registers among the first `n` operands.
pub open spec fn operand_kregs(insn: Decoded, n: int) -> Seq<u8>
    decreases n,
{
    if n <= 0 {
        seq![]
    } else {
        let before = operand_kregs(insn, n - 1);
        match insn::kreg_of(insn.reg(n - 1)) {
            Some(k) => if insn.kind(n - 1) == insn::KIND_REGISTER {
                before.push(k)
            } else {
                before
            },
            None => before,
        }
    }
}

/// The mask registers `insn` uses: operands, and the write mask.
pub open spec fn mask_regs(insn: Decoded) -> Seq<u8> {
    let ops = operand_kregs(insn, insn.head.op_count as int);
    match insn::kreg_of(insn.head.mask) {
        Some(k) => ops.push(k),
        None => ops,
    }
}

/// A 64-byte constant of sixteen dwords.
pub open spec fn dwords(v: Seq<u32>) -> Seq<u8> {
    Seq::new(64, |i: int| bits::le32(v[i / 4])[i % 4])
}

/// A 64-byte constant of one dword in every lane.
pub open spec fn splat32(v: u32) -> Seq<u8> {
    dwords(Seq::new(16, |i: int| v))
}

/// A 64-byte constant of one qword in every lane.
pub open spec fn splat64(v: u64) -> Seq<u8> {
    dwords(
        Seq::new(
            16,
            |i: int|
                if i % 2 == 0 {
                    (v & 0xffff_ffff) as u32
                } else {
                    (v >> 32) as u32
                },
        ),
    )
}

/// An out-of-line sequence: the steps taken so far, the registers in use
/// and the constants referred to.
pub struct Prog {
    pub scratch: i32,
    /// The scratch mask register.
    pub kscr: u8,
    /// The vector registers of the instruction's operands.
    pub operands: Seq<u8>,
    /// The vector registers taken as temporaries, in order.
    pub temps: Seq<u8>,
    pub consts: Seq<Seq<u8>>,
    pub steps: Seq<Step>,
}

/// What the steps emit and save.
pub open spec fn lowered(scratch: i32, kscr: u8, steps: Seq<Step>) -> Low
    decreases steps.len(),
{
    if steps.len() == 0 {
        Low::empty()
    } else {
        lowered(scratch, kscr, steps.drop_last()).after(scratch, kscr, steps.last())
    }
}

/// Whether every constant the steps name is one of the first `n`.
pub open spec fn names_within(steps: Seq<Step>, n: nat) -> bool {
    forall|i: int| 0 <= i < steps.len() ==> ((#[trigger] steps[i]) matches Step::Mvex(m) ==> m.rm.within(n))
}

/// Whether the temporaries are registers of their own: none is an operand's
/// and no two are the same.
pub open spec fn fresh(temps: Seq<u8>, operands: Seq<u8>) -> bool {
    &&& forall|i: int| 0 <= i < temps.len() ==> !operands.contains(#[trigger] temps[i])
    &&& forall|i: int, j: int|
        0 <= i < j < temps.len() ==> #[trigger] temps[i] != #[trigger] temps[j]
}

impl Prog {
    /// Whether the sequence names no constant it does not have, and takes
    /// its temporaries from the registers the instruction does not name, no
    /// more of them than the scratch area keeps.
    #[verifier::opaque]
    pub open spec fn sound(self) -> bool {
        &&& names_within(self.steps, self.consts.len())
        &&& fresh(self.temps, self.operands)
        &&& self.temps.len() <= ZMM_SLOTS
    }

    /// The empty sequence for `insn`.
    pub open spec fn start(scratch: i32, insn: Decoded) -> Prog {
        Prog {
            scratch,
            kscr: free_mask(mask_regs(insn), 7),
            operands: operand_vregs(insn, insn.head.op_count as int),
            temps: seq![],
            consts: seq![],
            steps: seq![],
        }
    }

    /// What the steps so far emit and save.
    pub open spec fn low(self) -> Low {
        lowered(self.scratch, self.kscr, self.steps)
    }

    /// The finished sequence: everything clobbered restored at its end.
    pub open spec fn body(self) -> Body {
        self.low().finished(self.scratch, self.kscr, self.temps)
    }

    pub open spec fn step(self, s: Step) -> Prog {
        Prog { steps: self.steps.push(s), ..self }
    }

    /// The register the next temporary gets.
    pub open spec fn next_temp(self) -> u8 {
        free_from(self.operands + self.temps, 0)
    }

    /// With one more temporary.
    pub open spec fn temp(self) -> Prog {
        let z = self.next_temp();
        Prog { temps: self.temps.push(z), ..self.step(Step::Temp(z)) }
    }

    /// The index a constant has, or gets.
    pub open spec fn index_of(self, c: Seq<u8>) -> usize {
        match find_from(self.consts, c, 0) {
            Some(i) => i as usize,
            None => self.consts.len() as usize,
        }
    }

    /// With the constant, if it is new.
    pub open spec fn constant(self, c: Seq<u8>) -> Prog {
        match find_from(self.consts, c, 0) {
            Some(i) => self,
            None => Prog { consts: self.consts.push(c), ..self },
        }
    }

    pub open spec fn mvex(
        self,
        map: u8,
        pp: u8,
        w: u8,
        op: u8,
        reg: u8,
        vvvv: u8,
        rm: Rm,
        k: u8,
        sss: u8,
        imm: Option<u8>,
    ) -> Prog {
        self.step(Step::Mvex(Mvex { map, pp, w, op, reg, vvvv, rm, k, sss, imm }))
    }

    pub open spec fn vexk(self, op: u8, reg: u8, rm: u8) -> Prog {
        self.step(Step::VexK { op, reg, rm })
    }

    /// `mov eax, imm`.
    pub open spec fn mov_eax(self, imm: u32) -> Prog {
        self.step(Step::Rax).step(Step::Raw(seq![0xb8u8] + bits::le32(imm)))
    }

    /// The scratch mask register set to `mask`.
    pub open spec fn mask_imm(self, mask: u16) -> Prog {
        self.step(Step::K).mov_eax(mask as u32).vexk(0x92, self.kscr, 0)
    }

    pub open spec fn vmov(self, d: u8, s: Rm, k: u8, w: u8) -> Prog {
        self.mvex(1, w, w, 0x28, d, 0, s, k, 0, None)
    }

    pub open spec fn zero(self, d: u8, k: u8, w: u8) -> Prog {
        self.mvex(1, 1, w, 0xEF, d, d, Rm::Reg(d), k, 0, None)
    }

    /// The dword lanes selected by `mask` zeroed.
    pub open spec fn zero_lanes(self, d: u8, mask: u16) -> Prog {
        if mask != 0 {
            self.mask_imm(mask).zero(d, self.kscr, 0)
        } else {
            self
        }
    }

    pub open spec fn vpshufd(self, d: u8, s: Rm, imm: u8, k: u8) -> Prog {
        self.mvex(1, 1, 0, 0x70, d, 0, s, k, 0, Some(imm))
    }

    pub open spec fn vpermf32x4(self, d: u8, s: Rm, imm: u8, k: u8) -> Prog {
        self.mvex(3, 1, 0, 0x07, d, 0, s, k, 0, Some(imm))
    }

    pub open spec fn vpermd(self, d: u8, idx: u8, s: Rm, k: u8) -> Prog {
        self.mvex(2, 1, 0, 0x36, d, idx, s, k, 0, None)
    }

    pub open spec fn valignd(self, d: u8, s1: u8, s2: Rm, imm: u8, k: u8) -> Prog {
        self.mvex(3, 1, 0, 0x03, d, s1, s2, k, 0, Some(imm))
    }

    pub open spec fn i38(self, op: u8, d: u8, s1: u8, s2: Rm, k: u8) -> Prog {
        self.mvex(2, 1, 0, op, d, s1, s2, k, 0, None)
    }

    pub open spec fn i0f(self, op: u8, d: u8, s1: u8, s2: Rm, k: u8, w: u8) -> Prog {
        self.mvex(1, 1, w, op, d, s1, s2, k, 0, None)
    }

    pub open spec fn shift_imm(self, which: u8, d: u8, s: Rm, n: u8, k: u8) -> Prog {
        self.mvex(1, 1, 0, 0x72, which, d, s, k, 0, Some(n))
    }

    pub open spec fn compare(self, kd: u8, s1: u8, s2: Rm, pred: u8, k: u8, w: u8) -> Prog {
        self.mvex(1, w, w, 0xC2, kd, s1, s2, k, 0, Some(pred))
    }

    pub open spec fn load_unaligned(self, d: u8, m: MemOp, k: u8, float: bool, sss: u8) -> Prog {
        let lo: u8 = if float {
            0xD1
        } else {
            0xD0
        };
        self.mvex(2, 0, 0, lo, d, 0, Rm::Mem(m), k, sss, None).mvex(
            2,
            0,
            0,
            (lo + 4) as u8,
            d,
            0,
            Rm::Mem(m.spec_plus(64)),
            k,
            sss,
            None,
        )
    }

    pub open spec fn store_unaligned(self, m: MemOp, s: u8, k: u8, float: bool, sss: u8) -> Prog {
        let lo: u8 = if float {
            0xD1
        } else {
            0xD0
        };
        self.mvex(2, 1, 0, lo, s, 0, Rm::Mem(m), k, sss, None).mvex(
            2,
            1,
            0,
            (lo + 4) as u8,
            s,
            0,
            Rm::Mem(m.spec_plus(64)),
            k,
            sss,
            None,
        )
    }

    pub open spec fn load_block(self, d: u8, m: Rm, k: u8, half: bool) -> Prog {
        if half {
            self.mvex(2, 1, 1, 0x5B, d, 0, m, k, 0, None)
        } else {
            self.mvex(2, 1, 0, 0x5A, d, 0, m, k, 0, None)
        }
    }

    pub open spec fn broadcast_load(self, d: u8, m: Rm, k: u8, w: u8) -> Prog {
        self.mvex(2, 1, w, 0x18u8 | w, d, 0, m, k, 0, None)
    }

    /// The scratch mask set to the dword-lane form of the qword-lane mask
    /// `k`, within `limit`.
    pub open spec fn qmask_to_dmask(self, k: u8, limit: u16) -> Prog {
        self.step(Step::K).step(Step::Flags).step(Step::Rcx).vexk(0x93, 0, k).step(
            Step::Raw(spread_bits(limit)),
        ).vexk(0x92, self.kscr, 0)
    }

    pub open spec fn gpr_scratch(self, r: u8, wide: bool, off: i32, store: bool) -> Prog {
        self.step(Step::Gpr { r, wide, off, store })
    }

    pub open spec fn gpr_result(self, r: u8, wide: bool, off: i32) -> Prog {
        self.step(Step::Tail { r, wide, off })
    }

    pub open spec fn raw(self, bytes: Seq<u8>) -> Prog {
        self.step(Step::Raw(bytes))
    }

    pub open spec fn legacy(self, opcodes: Seq<u8>, m: MemOp) -> Prog {
        self.step(Step::Legacy { opcodes, m })
    }

    pub open spec fn fs_op(self, opcodes: Seq<u8>, reg: u8, off: i32) -> Prog {
        self.step(Step::FsOp { opcodes, reg, off })
    }
}

/// Bit i of eax copied to bits 2i and 2i+1 and the result cut to `limit`,
/// ecx clobbered: three rounds of `mov ecx, eax; shl ecx, n; or eax, ecx;
/// and eax, m` after `movzx eax, al`, then each bit doubled.
pub open spec fn spread_bits(limit: u16) -> Seq<u8> {
    seq![
        0x0f, 0xb6, 0xc0, 0x89, 0xc1, 0xc1, 0xe1, 0x04, 0x09, 0xc8, 0x25, 0x0f, 0x0f, 0x00, 0x00,
        0x89, 0xc1, 0xc1, 0xe1, 0x02, 0x09, 0xc8, 0x25, 0x33, 0x33, 0x00, 0x00,
        0x89, 0xc1, 0xd1, 0xe1, 0x09, 0xc8, 0x25, 0x55, 0x55, 0x00, 0x00,
        0x89, 0xc1, 0xd1, 0xe1, 0x09, 0xc8, 0x25,
    ] + bits::le32(limit as u32)
}

} // verus!
