//! The EVEX prefix, the vector lengths, and the table of the card's
//! instructions.
use crate::xlate::code;
use crate::xlate::code::{MemOp, Rewrite, Rm, Unsupported};
use crate::xlate::em::Em;
use crate::xlate::insn;
use crate::xlate::insn::Decoded;
use crate::xlate::prog::{Prog, Step};
use vstd::prelude::*;

verus! {

/// The EVEX prefix fields of an instruction, as encoded.
#[derive(Clone, Copy, Debug)]
pub struct Ev {
    pub map: u8,
    pub pp: u8,
    pub w: u8,
    pub ll: u8,
    pub z: bool,
    pub b: bool,
    pub aaa: u8,
    pub op: u8,
    pub modrm: u8,
    /// ModRM.reg with R and R' (5 bits).
    pub reg: u8,
    /// vvvv with V' (5 bits).
    pub vvvv: u8,
    /// ModRM.rm with B and X, when mod is 11 (5 bits).
    pub rm: u8,
    pub is_reg_rm: bool,
}

/// The prefix fields of the instruction in `bytes`.
pub open spec fn parsed(bytes: Seq<u8>) -> Ev {
    let p0 = bytes[1];
    let p1 = bytes[2];
    let p2 = bytes[3];
    let modrm = bytes[5];
    Ev {
        map: p0 & 3,
        pp: p1 & 3,
        w: p1 >> 7,
        ll: (p2 >> 5) & 3,
        z: p2 >> 7 == 1,
        b: (p2 >> 4) & 1 == 1,
        aaa: p2 & 7,
        op: bytes[4],
        modrm,
        reg: ((modrm >> 3) & 7) | ((!p0 >> 7) & 1) << 3 | ((!p0 >> 4) & 1) << 4,
        vvvv: ((!p1 >> 3) & 0xf) | ((!p2 >> 3) & 1) << 4,
        rm: (modrm & 7) | ((!p0 >> 5) & 1) << 3 | ((!p0 >> 6) & 1) << 4,
        is_reg_rm: modrm >> 6 == 3,
    }
}

/// The prefix fields of the instruction in `bytes`.
pub fn parse(bytes: &[u8]) -> (ev: Ev)
    requires
        bytes@.len() >= 6,
    ensures
        ev == parsed(bytes@),
{
    let p0: u8 = bytes[1];
    let p1: u8 = bytes[2];
    let p2: u8 = bytes[3];
    let modrm: u8 = bytes[5];
    Ev {
        map: p0 & 3,
        pp: p1 & 3,
        w: p1 >> 7,
        ll: (p2 >> 5) & 3,
        z: p2 >> 7 == 1,
        b: (p2 >> 4) & 1 == 1,
        aaa: p2 & 7,
        op: bytes[4],
        modrm,
        reg: ((modrm >> 3) & 7) | ((!p0 >> 7) & 1) << 3 | ((!p0 >> 4) & 1) << 4,
        vvvv: ((!p1 >> 3) & 0xf) | ((!p2 >> 3) & 1) << 4,
        rm: (modrm & 7) | ((!p0 >> 5) & 1) << 3 | ((!p0 >> 6) & 1) << 4,
        is_reg_rm: modrm >> 6 == 3,
    }
}

/// Lanes of a vector length: the dword-lane (W0) or qword-lane (W1) mask
/// of the elements a 128-bit (`ll` 0), 256-bit (1) or 512-bit (2) form has.
#[verifier::allow_in_spec]
pub fn vl_lanes(ll: u8, w: u8) -> u16
    returns
        (if w == 0 {
            if ll == 0 {
                0x000fu16
            } else if ll == 2 {
                0xffff
            } else {
                0x00ff
            }
        } else {
            if ll == 0 {
                0x0003u16
            } else if ll == 1 {
                0x000f
            } else {
                0x00ff
            }
        }),
{
    match (ll, w) {
        (0, 0) => 0x000f,
        (1, 0) => 0x00ff,
        (2, 0) => 0xffff,
        (0, _) => 0x0003,
        (1, _) => 0x000f,
        _ => 0x00ff,
    }
}

/// The dword lanes above a vector length, which a write of that length zeroes.
#[verifier::allow_in_spec]
pub fn upper(ll: u8) -> u16
    returns
        (if ll == 0 {
            0xfff0u16
        } else if ll == 1 {
            0xff00
        } else {
            0
        }),
{
    match ll {
        0 => 0xfff0,
        1 => 0xff00,
        _ => 0,
    }
}

/// Whether the destination is the vvvv register (the shift-by-immediate
/// groups 71, 72, 73, where ModRM.reg is the opcode extension).
#[verifier::allow_in_spec]
pub fn dest_is_vvvv(ev: Ev) -> bool
    returns
        ev.map == 1 && ev.pp == 1 && (ev.op == 0x72 || ev.op == 0x73 || ev.op == 0x71),
{
    ev.map == 1 && ev.pp == 1 && (ev.op == 0x72 || ev.op == 0x73 || ev.op == 0x71)
}

/// What a rewrite comes to.
pub enum Outcome {
    /// These bytes in place.
    InPlace(Seq<u8>),
    /// This sequence out of line.
    Thunk(Prog),
    /// A refusal for this reason.
    Refused(Seq<char>),
}

impl Outcome {
    /// Whether `r` is this outcome for `insn`.
    pub open spec fn is(self, insn: Decoded, r: Result<Rewrite, Unsupported>) -> bool {
        match self {
            Outcome::InPlace(b) => r matches Ok(Rewrite::InPlace(v)) && v@ == b,
            Outcome::Thunk(p) => r matches Ok(Rewrite::Thunk(t)) && t.body() == p.body()
                && t.constants() == p.consts && p.sound(),
            Outcome::Refused(reason) => r matches Err(u) && u.text@ == insn.text@ && u.reason@
                == reason,
        }
    }
}

impl Decoded {
    /// Whether the operands can be walked and the memory operand's second
    /// line addressed, as those of a decoded vector or mask instruction can.
    pub open spec fn operable(&self) -> bool {
        &&& 1 <= self.head.op_count <= 5
        &&& self.kind(1) == insn::KIND_MEMORY ==> self.head.op_count >= 2
        &&& (self.mem.disp as i64) + 64 <= i64::MAX
    }
}

impl Prog {
    /// The result held in `r` written into `d` under the instruction's mask
    /// and vector length: merged under the write mask, zeroed under `{z}`,
    /// zeroed above the length.
    #[verifier::opaque]
    pub open spec fn commit(self, d: u8, r: u8, ev: Ev) -> Prog {
        let full = ev.ll == 2;
        let k = if full && ev.aaa == 0 {
            0
        } else {
            self.kscr
        };
        let masked = if full && ev.aaa == 0 {
            self
        } else if ev.aaa != 0 {
            self.mask_imm(vl_lanes(ev.ll, ev.w)).vexk(0x41, k, ev.aaa)
        } else {
            self.mask_imm(vl_lanes(ev.ll, ev.w))
        };
        let moved = if r != d {
            masked.vmov(d, Rm::Reg(r), k, ev.w)
        } else {
            masked
        };
        let zeroed = if ev.z && ev.aaa != 0 {
            moved.step(Step::K).vexk(0x44, self.kscr, k).zero(d, self.kscr, ev.w)
        } else {
            moved
        };
        let written = if r != d || !full || ev.aaa != 0 {
            zeroed
        } else {
            self
        };
        if full {
            written
        } else {
            written.zero_lanes(d, upper(ev.ll))
        }
    }

    /// The register holding the second source.
    pub open spec fn src2_reg(self, insn: Decoded, ev: Ev) -> u8 {
        if insn.has_mem() {
            self.next_temp()
        } else {
            ev.rm
        }
    }

    /// The second source brought into a register: a memory operand is
    /// staged into a temporary, broadcast or through the unaligned pair.
    pub open spec fn src2(self, insn: Decoded, ev: Ev) -> Prog {
        match MemOp::spec_of(insn) {
            None => self,
            Some(m) => {
                let t = self.next_temp();
                let p = self.temp();
                if ev.b {
                    p.mvex(1, ev.w, ev.w, 0x28, t, 0, Rm::Mem(m), 0, 1, None)
                } else if ev.ll == 2 {
                    p.load_unaligned(t, m, 0, false, 0)
                } else {
                    p.mask_imm(vl_lanes(ev.ll, 0)).load_unaligned(t, m, p.kscr, false, 0)
                }
            },
        }
    }
}

/// Write the result held in `r` into `d` under the instruction's mask and
/// vector length: merge under `kn`, zero under `{z}`, zero above the length.
pub fn commit(em: &mut Em, d: u8, r: u8, ev: &Ev)
    requires
        old(em).wf(),
    ensures
        final(em).wf(),
        final(em)@ == old(em)@.commit(d, r, *ev),
{
    proof {
        reveal(Prog::commit);
    }
    let vl: u16 = vl_lanes(ev.ll, ev.w);
    let full = ev.ll == 2;
    if r != d || !full || ev.aaa != 0 {
        let k: u8 = if full && ev.aaa == 0 {
            0
        } else {
            let k: u8 = em.mask_imm(vl);
            if ev.aaa != 0 {
                em.kand(k, ev.aaa);
            }
            k
        };
        if r != d {
            em.vmov(d, Rm::Reg(r), k, ev.w);
        }
        if ev.z && ev.aaa != 0 {
            let kz: u8 = em.k();
            em.knot(kz, k);
            em.zero(d, kz, ev.w);
        }
    }
    if !full {
        em.zero_lanes(d, upper(ev.ll));
    }
}

/// The second source of a three-operand instruction as a register: the
/// register itself, or a memory operand staged into a temporary.
pub fn src2(em: &mut Em, insn: &Decoded, ev: &Ev) -> (s: u8)
    requires
        old(em).wf(),
        insn.operable(),
        old(em)@.temps.len() < code::ZMM_SLOTS,
    ensures
        final(em).wf(),
        final(em)@ == old(em)@.src2(*insn, *ev),
        s == old(em)@.src2_reg(*insn, *ev),
{
    match MemOp::of(insn) {
        None => ev.rm,
        Some(m) => {
            let t: u8 = em.temp();
            if ev.b {
                em.mvex(1, ev.w, ev.w, 0x28, t, 0, Rm::Mem(m), 0, 1, None);
            } else {
                let dm: u16 = vl_lanes(ev.ll, 0);
                let k: u8 = if dm == 0xffff {
                    0
                } else {
                    em.mask_imm(dm)
                };
                em.load_unaligned(t, m, k, false, 0);
            }
            t
        },
    }
}

} // verus!
