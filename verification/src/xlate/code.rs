//! What a rewritten instruction is made of: encodings of the card's
//! instructions, and out-of-line sequences with what their layout patches.
use crate::bits;
use crate::xlate::insn;
use crate::xlate::insn::Decoded;
use vstd::prelude::*;

verus! {

/// What the emitter needs to know about the card it targets.
#[derive(Clone, Copy, Debug, PartialEq, Eq)]
pub struct Target {
    /// `fs`-relative displacement of the per-thread scratch area
    /// (`SCRATCH_BYTES` bytes, 64-byte aligned) the card worker provides;
    /// its layout is the `S_*` constants here.
    pub scratch: i32,
}

/// Bytes of the per-thread scratch area.
pub const SCRATCH_BYTES: u32 = 512;
/// Vector registers the scratch area keeps, 64 bytes each, from its start.
pub const ZMM_SLOTS: usize = 6;
pub const S_RAX: i32 = 384;
pub const S_RCX: i32 = 392;
pub const S_K: i32 = 400;
pub const S_GPR: i32 = 408;
pub const S_FLAGS: i32 = 416;
/// The x87 control word, and at `S_CW2` a copy with truncation set.
pub const S_CW: i32 = 424;
pub const S_CW2: i32 = 428;
/// A 64-byte slot for conversions between registers and memory.
pub const S_XFER: i32 = 448;

/// An instruction that is not translated, and why.
#[derive(Clone, Debug)]
pub struct Unsupported {
    /// The offending instruction in Intel syntax.
    pub text: String,
    /// Why it was refused, in a form fit to print to a user.
    pub reason: String,
}

impl Unsupported {
    /// The refusal as one line: the instruction, a colon, the reason.
    pub fn message(&self) -> (s: String)
        ensures
            s@ == self.text@ + ": "@ + self.reason@,
    {
        let mut s = self.text.clone();
        s.append(": ");
        s.append(self.reason.as_str());
        s
    }
}

/// The refusal of `insn` for `reason`.
pub fn refuse(insn: &Decoded, reason: &str) -> (u: Unsupported)
    ensures
        u.text@ == insn.text@,
        u.reason@ == reason@,
{
    Unsupported { text: insn.text.clone(), reason: reason.to_owned() }
}

/// What a site becomes.
#[derive(Clone, Debug, PartialEq, Eq)]
pub enum Rewrite {
    /// The same length, in place.
    InPlace(Vec<u8>),
    /// Out of line: the site becomes `jmp` to the sequence, which jumps back.
    Thunk(Thunk),
}

/// An out-of-line sequence with what the layout must patch.
#[derive(Clone, Debug, PartialEq, Eq, Default)]
pub struct Thunk {
    pub seq: Vec<u8>,
    pub fixups: Vec<Fixup>,
    /// 64-byte constants placed after the sequence, on 64-byte boundaries.
    pub consts: Vec<[u8; 64]>,
}

/// A 32-bit displacement in `seq` that depends on where the thunk lands.
#[derive(Clone, Copy, Debug, PartialEq, Eq)]
pub struct Fixup {
    /// Offset in `seq` of the displacement.
    pub disp_at: usize,
    /// Offset in `seq` of the end of the instruction (RIP-relative base).
    pub insn_end: usize,
    pub what: FixupKind,
}

#[derive(Clone, Copy, Debug, PartialEq, Eq)]
pub enum FixupKind {
    /// The constant of that index.
    Const(usize),
    /// An absolute address of the program.
    Rip(u64),
}

/// A sequence under construction: its bytes and the displacements in them
/// that its layout must patch.
pub struct Body {
    pub seq: Seq<u8>,
    pub fixups: Seq<Fixup>,
}

impl Body {
    pub open spec fn empty() -> Body {
        Body { seq: seq![], fixups: seq![] }
    }

    /// With `bytes` appended.
    pub open spec fn raw(self, bytes: Seq<u8>) -> Body {
        Body { seq: self.seq + bytes, fixups: self.fixups }
    }

    /// With an instruction appended whose 32-bit displacement stands
    /// `disp` bytes into it and refers to `what`.
    pub open spec fn patched(self, bytes: Seq<u8>, disp: int, what: FixupKind) -> Body {
        Body {
            seq: self.seq + bytes,
            fixups: self.fixups.push(
                (Fixup {
                    disp_at: (self.seq.len() + disp) as usize,
                    insn_end: (self.seq.len() + bytes.len()) as usize,
                    what,
                }),
            ),
        }
    }
}

impl Thunk {
    /// The sequence and its patches.
    pub open spec fn body(&self) -> Body {
        Body { seq: self.seq@, fixups: self.fixups@ }
    }

    /// The constants, each as its 64 bytes.
    pub open spec fn constants(&self) -> Seq<Seq<u8>> {
        self.consts@.map_values(|c: [u8; 64]| c@)
    }
}

/// A memory operand, decoded, to be re-encoded with a 32-bit displacement.
#[derive(Clone, Copy, Debug, PartialEq, Eq)]
pub struct MemOp {
    pub base: Option<u8>,
    pub index: Option<u8>,
    pub scale: u8,
    pub disp: i64,
    /// Absolute target of a RIP-relative operand.
    pub rip: Option<u64>,
}

impl MemOp {
    /// The memory operand of `insn`.
    pub open spec fn spec_of(insn: Decoded) -> Option<MemOp> {
        if !insn.has_mem() {
            None
        } else if insn.mem.rip {
            Some(
                MemOp { base: None, index: None, scale: 0, disp: 0, rip: Some(insn.mem.rip_address) },
            )
        } else {
            Some(
                MemOp {
                    base: match insn::gpr_of(insn.mem.base) {
                        Some(g) => Some(g.0),
                        None => None,
                    },
                    index: match insn::gpr_of(insn.mem.index) {
                        Some(g) => Some(g.0),
                        None => None,
                    },
                    scale: if insn.mem.scale == 1 {
                        0
                    } else if insn.mem.scale == 2 {
                        1
                    } else if insn.mem.scale == 4 {
                        2
                    } else {
                        3
                    },
                    disp: insn.mem.disp as i64,
                    rip: None,
                },
            )
        }
    }

    /// The memory operand of `insn`, if it has one.
    pub fn of(insn: &Decoded) -> (m: Option<MemOp>)
        requires
            insn.head.op_count <= 5,
        ensures
            m == MemOp::spec_of(*insn),
    {
        let mut found = false;
        let mut i: usize = 0;
        while i < insn.head.op_count as usize
            invariant
                i <= insn.head.op_count <= 5,
                found == exists|j: int| 0 <= j < i && insn.kind(j) == insn::KIND_MEMORY,
            decreases insn.head.op_count - i,
        {
            let kind: u8 = insn.op_kind(i);
            if kind == insn::KIND_MEMORY {
                found = true;
                assert(insn.kind(i as int) == insn::KIND_MEMORY);
            }
            i = i + 1;
        }
        if !found {
            return None;
        }
        if insn.mem.rip {
            return Some(
                MemOp { base: None, index: None, scale: 0, disp: 0, rip: Some(insn.mem.rip_address) },
            );
        }
        let base = match insn::gpr(insn.mem.base) {
            Some((n, _)) => Some(n),
            None => None,
        };
        let index = match insn::gpr(insn.mem.index) {
            Some((n, _)) => Some(n),
            None => None,
        };
        let scale: u8 = match insn.mem.scale {
            1 => 0,
            2 => 1,
            4 => 2,
            _ => 3,
        };
        Some(MemOp { base, index, scale, disp: insn.mem.disp as i64, rip: None })
    }

    /// The operand `delta` bytes further on.
    pub open spec fn spec_plus(self, delta: i64) -> MemOp {
        MemOp {
            disp: (self.disp + delta) as i64,
            rip: match self.rip {
                Some(r) => Some(vstd::wrapping::u64_specs::wrapping_add(r, delta as u64)),
                None => None,
            },
            ..self
        }
    }

    /// Whether the general register `r` is part of the address.
    pub open spec fn spec_uses(self, r: u8) -> bool {
        self.base == Some(r) || self.index == Some(r)
    }

    /// Whether the general register `r` is part of the address.
    pub fn uses(self, r: u8) -> (b: bool)
        ensures
            b == self.spec_uses(r),
    {
        let base = match self.base {
            Some(b) => b == r,
            None => false,
        };
        let index = match self.index {
            Some(i) => i == r,
            None => false,
        };
        base || index
    }

    /// The operand `delta` bytes further on.
    pub fn plus(self, delta: i64) -> (m: MemOp)
        requires
            i64::MIN <= self.disp + delta <= i64::MAX,
        ensures
            m == self.spec_plus(delta),
    {
        MemOp {
            disp: self.disp + delta,
            rip: match self.rip {
                Some(r) => Some(r.wrapping_add(delta as u64)),
                None => None,
            },
            ..self
        }
    }
}

/// The r/m operand of an emitted instruction.
#[derive(Clone, Copy, Debug)]
pub enum Rm {
    Reg(u8),
    Mem(MemOp),
    /// `[fs: scratch + offset]`.
    Fs(i32),
    /// A 64-byte constant of the thunk.
    Const(usize),
}

impl Rm {
    /// Whether a constant it names is one of the first `n`.
    pub open spec fn within(self, n: nat) -> bool {
        match self {
            Rm::Const(i) => i < n,
            _ => true,
        }
    }
}

/// One MVEX.512 instruction. `reg` is the ModRM.reg register (zmm or k, 5
/// bits), `vvvv` the first source (0 when unused), `k` the write mask (0 =
/// none), `sss` the swizzle, conversion or broadcast field.
#[derive(Clone, Copy, Debug)]
pub struct Mvex {
    pub map: u8,
    pub pp: u8,
    pub w: u8,
    pub op: u8,
    pub reg: u8,
    pub vvvv: u8,
    pub rm: Rm,
    pub k: u8,
    pub sss: u8,
    pub imm: Option<u8>,
}

/// Bit 3 of a register number, inverted, as the prefix holds it; 1 when
/// the place is empty.
pub open spec fn inverted_bit3(n: Option<u8>) -> u8 {
    match n {
        Some(r) => !(r >> 3) & 1,
        None => 1,
    }
}

/// ModRM, SIB and displacement of a memory operand, `reg` in ModRM.reg.
/// A RIP-relative displacement is left zero for the layout.
pub open spec fn mem_bytes(reg: u8, m: MemOp) -> Seq<u8> {
    let r3 = (reg & 7) << 3;
    if m.rip is Some {
        seq![0x05u8 | r3, 0, 0, 0, 0]
    } else {
        (match (m.base, m.index) {
            (Some(b), None) => if b & 7 != 4 {
                seq![0x80u8 | r3 | (b & 7)]
            } else {
                seq![0x84u8 | r3, 0x24]
            },
            (Some(b), Some(i)) => seq![0x84u8 | r3, (m.scale << 6) | ((i & 7) << 3) | (b & 7)],
            (None, Some(i)) => seq![0x04u8 | r3, (m.scale << 6) | ((i & 7) << 3) | 5],
            (None, None) => seq![0x04u8 | r3, 0x25],
        }) + bits::le32((m.disp as i32) as u32)
    }
}

impl Mvex {
    /// The X and B bits of the prefix, inverted as it holds them.
    pub open spec fn xb(self) -> (u8, u8) {
        match self.rm {
            Rm::Reg(r) => (!(r >> 4) & 1, !(r >> 3) & 1),
            Rm::Mem(m) => (inverted_bit3(m.index), inverted_bit3(m.base)),
            Rm::Fs(_) => (1, 1),
            Rm::Const(_) => (1, 1),
        }
    }

    /// The four prefix bytes.
    pub open spec fn prefix(self) -> Seq<u8> {
        let xb = self.xb();
        seq![
            0x62,
            ((!(self.reg >> 3) & 1) << 7) | (xb.0 << 6) | (xb.1 << 5) | ((!(self.reg >> 4) & 1) << 4)
                | self.map,
            (self.w << 7) | ((!self.vvvv & 0xf) << 3) | self.pp,
            (self.sss << 4) | ((!(self.vvvv >> 4) & 1) << 3) | (self.k & 7),
        ]
    }

    /// ModRM and what follows it, but for the immediate.
    pub open spec fn operand(self, scratch: i32) -> Seq<u8> {
        let r3 = (self.reg & 7) << 3;
        match self.rm {
            Rm::Reg(r) => seq![0xc0u8 | r3 | (r & 7)],
            Rm::Mem(m) => mem_bytes(self.reg, m),
            Rm::Fs(off) => seq![0x04u8 | r3, 0x25] + bits::le32(
                vstd::wrapping::i32_specs::wrapping_add(scratch, off) as u32,
            ),
            Rm::Const(_) => seq![0x05u8 | r3, 0, 0, 0, 0],
        }
    }

    /// The `fs` prefix, through which the scratch area is addressed.
    pub open spec fn seg(self) -> Seq<u8> {
        if self.rm is Fs {
            seq![0x64u8]
        } else {
            seq![]
        }
    }

    /// The bytes of the instruction.
    pub open spec fn bytes(self, scratch: i32) -> Seq<u8> {
        self.seg() + self.prefix() + seq![self.op] + self.operand(scratch) + (match self.imm {
            Some(i) => seq![i],
            None => seq![],
        })
    }

    /// What the displacement of the instruction refers to, where the
    /// layout decides it.
    pub open spec fn patch(self) -> Option<FixupKind> {
        match self.rm {
            Rm::Const(i) => Some(FixupKind::Const(i)),
            Rm::Mem(m) => match m.rip {
                Some(target) => Some(FixupKind::Rip(target)),
                None => None,
            },
            _ => None,
        }
    }
}

/// A VEX-encoded mask instruction with two mask (or one general) register
/// operands (VEX.128.0F.W0 41 44 45 47 90 92 93 98 /r).
pub open spec fn vexk_bytes(op: u8, reg: u8, rm: u8) -> Seq<u8> {
    if reg < 8 && rm < 8 {
        seq![0xc5u8, 0xf8, op, 0xc0u8 | (reg << 3) | rm]
    } else {
        seq![
            0xc4u8,
            ((!(reg >> 3) & 1) << 7) | 0x40 | ((!(rm >> 3) & 1) << 5) | 1,
            0x78,
            op,
            0xc0u8 | ((reg & 7) << 3) | (rm & 7),
        ]
    }
}

/// `mov [fs:scratch+off], r` (89 /r) or `mov r, [fs:scratch+off]` (8B /r).
pub open spec fn gpr_bytes(scratch: i32, r: u8, wide: bool, off: i32, store: bool) -> Seq<u8> {
    let rex = 0x40u8 | (if wide {
        8u8
    } else {
        0u8
    }) | ((r >> 3) & 1);
    seq![0x64u8] + (if rex != 0x40 {
        seq![rex]
    } else {
        seq![]
    }) + seq![
        if store {
            0x89u8
        } else {
            0x8bu8
        },
        0x04u8 | ((r & 7) << 3),
        0x25,
    ] + bits::le32(vstd::wrapping::i32_specs::wrapping_add(scratch, off) as u32)
}

/// An x87 or integer instruction with one `[fs:scratch+off]` memory
/// operand: `opcodes`, then ModRM with `reg` as the extension. The segment
/// prefix stands after an operand-size prefix.
pub open spec fn fs_op_bytes(scratch: i32, opcodes: Seq<u8>, reg: u8, off: i32) -> Seq<u8> {
    let sized = opcodes.len() > 1 && opcodes[0] == 0x66;
    let head = if sized {
        seq![0x66u8, 0x64] + opcodes.skip(1)
    } else {
        seq![0x64u8] + opcodes
    };
    head + seq![0x04u8 | (reg << 3), 0x25] + bits::le32(
        vstd::wrapping::i32_specs::wrapping_add(scratch, off) as u32,
    )
}

} // verus!
