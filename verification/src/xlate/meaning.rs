//! What a sequence computes: a model of the card's vector, mask and general
//! registers, and of the instructions the sequences are made of.
//!
//! The model has the moves, the bitwise and integer instructions, the
//! shuffles, the blends, the compares and the mask instructions. What any
//! other vector instruction computes from its sources is left to the model's
//! user ([`Vm::alu`]), so what is said of such an instruction holds whatever
//! it computes. Memory is one of dwords: the unaligned pairs and the
//! broadcasts read it, and the pairs write it. So is what the sequences keep
//! in the scratch area. The loads that convert read elements smaller than a
//! dword.
use crate::bits;
use crate::xlate::code::{MemOp, Mvex, Rm, S_GPR, S_XFER};
use crate::xlate::em;
use crate::xlate::ev;
use crate::xlate::ev::Ev;
use crate::xlate::insn::Decoded;
use crate::xlate::laws;
use crate::xlate::prog;
use crate::xlate::prog::{Prog, Step};
use vstd::prelude::*;

verus! {

/// The registers a sequence works on.
pub struct Vm {
    /// The vector registers, sixteen dwords each.
    pub z: Map<u8, Seq<u32>>,
    /// The mask registers.
    pub k: Map<u8, u16>,
    /// eax and ecx, as far as their contents are known.
    pub gp: (Option<u32>, Option<u32>),
    /// Whether nothing was run that the model does not have.
    pub ok: bool,
    /// What a vector instruction without a meaning of its own here computes
    /// from what its destination held and its two sources.
    pub alu: spec_fn(Mvex, Seq<u32>, Seq<u32>, Seq<u32>) -> Seq<u32>,
    /// Where a memory operand points.
    pub addr: spec_fn(MemOp) -> int,
    /// The dword at an address, of those that four divides.
    pub mem: spec_fn(int) -> u32,
    /// The sixteen dwords of the transfer slot of the scratch area.
    pub slot: Seq<u32>,
    /// The two dwords of the scratch area by which general registers are moved.
    pub word: (u32, u32),
    /// The low and the high dword of the general registers, rax and rcx as
    /// they are once restored.
    pub general: Map<u8, (u32, u32)>,
    /// The float that the bits of a float16 are converted to.
    pub half: spec_fn(int) -> u32,
    /// The bits of the float16 that a float is converted to.
    pub rounded: spec_fn(u32) -> u16,
}

/// Bit `i` of a mask.
pub open spec fn bit(m: u16, i: int) -> bool {
    (m >> (i as u16)) & 1 == 1
}

/// Two bits of an immediate: field `j`.
pub open spec fn field(imm: u8, j: int) -> int {
    ((imm >> ((2 * j) as u8)) & 3) as int
}

/// A dword shifted right by `n`, its sign coming in at the top.
pub open spec fn sra(x: u32, n: u32) -> u32 {
    if x < 0x8000_0000 {
        x >> n
    } else {
        !((!x) >> n)
    }
}

/// The sixteen dwords of a constant.
pub open spec fn words(c: Seq<u8>) -> Seq<u32> {
    Seq::new(16, |i: int| bits::word32(c, 4 * i))
}

/// The lanes of `new` that the mask register `k`, holding `m`, selects, by
/// dwords or (`w` 1) by qwords; the others are those of `old`.
pub open spec fn merged(old: Seq<u32>, new: Seq<u32>, k: u8, m: u16, w: u8) -> Seq<u32> {
    Seq::new(
        16,
        |i: int|
            if k == 0 || bit(m, if w == 0 { i } else { i / 2 }) {
                new[i]
            } else {
                old[i]
            },
    )
}

/// The instruction without its registers: what its result depends on besides
/// them.
pub open spec fn bare(m: Mvex) -> Mvex {
    Mvex { reg: if m.op == 0x72 { m.reg } else { 0 }, vvvv: 0, rm: Rm::Reg(0), k: 0, sss: 0, ..m }
}

/// What a 0F instruction with the 66 prefix and opcode `op` computes of one
/// lane, where it is one of the lane-wise ones.
pub open spec fn lane_op(op: u8, a: u32, b: u32) -> Option<u32> {
    if op == 0xEF {
        Some(a ^ b)
    } else if op == 0xEB {
        Some(a | b)
    } else if op == 0xDB {
        Some(a & b)
    } else if op == 0xDF {
        Some(!a & b)
    } else if op == 0xFE {
        Some(((a + b) % 0x1_0000_0000) as u32)
    } else if op == 0xFA {
        Some(((a - b) % 0x1_0000_0000) as u32)
    } else {
        None
    }
}

/// A shift of every lane by an immediate: `which` is the opcode's extension.
pub open spec fn shifted(which: u8, x: u32, n: u8) -> u32 {
    if which == 2 {
        x >> (n as u32)
    } else if which == 4 {
        sra(x, n as u32)
    } else {
        x << (n as u32)
    }
}

/// A lane shifted by a count of its own: 0x45 to the right, 0x46 to the right
/// with the sign, 0x47 to the left. A count of 32 or more leaves nothing, or
/// the sign.
pub open spec fn shifted_by(op: u8, x: u32, n: u32) -> u32 {
    if op == 0x46 {
        if n < 32 {
            sra(x, n)
        } else {
            sra(x, 31)
        }
    } else if n >= 32 {
        0
    } else if op == 0x45 {
        x >> n
    } else {
        x << n
    }
}

/// Every block's dwords as the fields of the immediate say.
pub open spec fn shuffled(b: Seq<u32>, imm: u8) -> Seq<u32> {
    Seq::new(16, |i: int| b[4 * (i / 4) + field(imm, i % 4)])
}

/// The four blocks as the fields of the immediate say.
pub open spec fn blocks(b: Seq<u32>, imm: u8) -> Seq<u32> {
    Seq::new(16, |i: int| b[4 * field(imm, i / 4) + i % 4])
}

/// The lanes of `b` that the low four bits of those of `a` name.
pub open spec fn picked(a: Seq<u32>, b: Seq<u32>) -> Seq<u32> {
    Seq::new(16, |i: int| b[a[i] as int % 16])
}

/// The sixteen lanes from lane `n` on of `b` followed by `a`.
pub open spec fn aligned(a: Seq<u32>, b: Seq<u32>, n: int) -> Seq<u32> {
    Seq::new(
        16,
        |i: int|
            if i + n < 16 {
                b[i + n]
            } else {
                a[i + n - 16]
            },
    )
}

/// What general instructions on eax and ecx leave in them: the few that the
/// sequences use.
pub open spec fn ran(bytes: Seq<u8>, r: (Option<u32>, Option<u32>)) -> Option<
    (Option<u32>, Option<u32>),
>
    decreases bytes.len(),
{
    let n = bytes.len();
    if n == 0 {
        Some(r)
    } else if n >= 5 && bytes[0] == 0xb8 {
        // mov eax, imm32
        ran(bytes.skip(5), (Some(bits::word32(bytes, 1)), r.1))
    } else if n >= 2 && bytes[0] == 0x31 && bytes[1] == 0xc0 {
        // xor eax, eax
        ran(bytes.skip(2), (Some(0u32), r.1))
    } else if n >= 3 && bytes[0] == 0x0f && bytes[1] == 0xb6 && bytes[2] == 0xc0 && r.0 is Some {
        // movzx eax, al
        ran(bytes.skip(3), (Some(r.0->0 & 0xff), r.1))
    } else if n >= 3 && bytes[0] == 0x0f && bytes[1] == 0xb6 && bytes[2] == 0xc9 && r.1 is Some {
        // movzx ecx, cl
        ran(bytes.skip(3), (r.0, Some(r.1->0 & 0xff)))
    } else if n >= 3 && bytes[0] == 0x0f && bytes[1] == 0xb7 && bytes[2] == 0xc0 && r.0 is Some {
        // movzx eax, ax
        ran(bytes.skip(3), (Some(r.0->0 & 0xffff), r.1))
    } else if n >= 3 && bytes[0] == 0xc1 && bytes[1] == 0xe0 && bytes[2] < 32 && r.0 is Some {
        // shl eax, imm8
        ran(bytes.skip(3), (Some(r.0->0 << (bytes[2] as u32)), r.1))
    } else if n >= 3 && bytes[0] == 0xc1 && bytes[1] == 0xe8 && bytes[2] < 32 && r.0 is Some {
        // shr eax, imm8
        ran(bytes.skip(3), (Some(r.0->0 >> (bytes[2] as u32)), r.1))
    } else if n >= 3 && bytes[0] == 0xc1 && bytes[1] == 0xe1 && bytes[2] < 32 && r.1 is Some {
        // shl ecx, imm8
        ran(bytes.skip(3), (r.0, Some(r.1->0 << (bytes[2] as u32))))
    } else if n >= 2 && bytes[0] == 0xd1 && bytes[1] == 0xe1 && r.1 is Some {
        // shl ecx, 1
        ran(bytes.skip(2), (r.0, Some(r.1->0 << 1u32)))
    } else if n >= 2 && bytes[0] == 0x89 && bytes[1] == 0xc1 {
        // mov ecx, eax
        ran(bytes.skip(2), (r.0, r.0))
    } else if n >= 2 && bytes[0] == 0x09 && bytes[1] == 0xc8 && r.0 is Some && r.1 is Some {
        // or eax, ecx
        ran(bytes.skip(2), (Some(r.0->0 | r.1->0), r.1))
    } else if n >= 5 && bytes[0] == 0x25 && r.0 is Some {
        // and eax, imm32
        ran(bytes.skip(5), (Some(r.0->0 & bits::word32(bytes, 1)), r.1))
    } else {
        None
    }
}

/// What a two-operand mask instruction leaves in its first operand.
pub open spec fn mask_result(op: u8, a: u16, b: u16) -> Option<u16> {
    if op == 0x90 {
        Some(b)
    } else if op == 0x41 {
        Some(a & b)
    } else if op == 0x42 {
        Some(!a & b)
    } else if op == 0x44 {
        Some(!b)
    } else if op == 0x45 {
        Some(a | b)
    } else if op == 0x46 {
        Some(!(a ^ b))
    } else if op == 0x47 {
        Some(a ^ b)
    } else {
        None
    }
}

/// The mask whose bit `i` is set where `f(i)`, of its first `n` bits.
pub open spec fn mask_where(f: spec_fn(int) -> bool, n: int) -> u16
    decreases n,
{
    if n <= 0 {
        0
    } else {
        let m = mask_where(f, n - 1);
        if f(n - 1) {
            m | (1u16 << ((n - 1) as u16))
        } else {
            m
        }
    }
}

/// The bits of such a mask.
pub proof fn lemma_mask_where(f: spec_fn(int) -> bool, n: int, i: int)
    requires
        0 <= n <= 16,
        0 <= i < 16,
    ensures
        bit(mask_where(f, n), i) == (i < n && f(i)),
    decreases n,
{
    if n > 0 {
        lemma_mask_where(f, n - 1, i);
        let m = mask_where(f, n - 1);
        let (j, k) = (i as u16, (n - 1) as u16);
        assert(((m | (1u16 << k)) >> j) & 1 == 1 <==> ((m >> j) & 1 == 1 || j == k)) by (bit_vector)
            requires
                j < 16,
                k < 16,
        ;
    } else {
        lemma_bits(0, 0, i as u16);
    }
}

/// How many of the bits below bit `i` are set.
pub open spec fn rank(m: u16, i: int) -> int
    decreases i,
{
    if i <= 0 {
        0
    } else if bit(m, i - 1) {
        rank(m, i - 1) + 1
    } else {
        rank(m, i - 1)
    }
}

/// The bytes of an element that a load with the conversion `sss` reads.
pub open spec fn element_bytes(sss: u8) -> int {
    if sss == 4 || sss == 5 {
        1
    } else if sss == 3 || sss == 6 || sss == 7 {
        2
    } else {
        4
    }
}

/// The element of `bytes` bytes at the address `y`, which its size divides,
/// in the dword there.
pub open spec fn part(dword: u32, y: int, bytes: int) -> int {
    let d = dword as int;
    let x = if y % 4 == 0 {
        d
    } else if y % 4 == 1 {
        d / 0x100
    } else if y % 4 == 2 {
        d / 0x1_0000
    } else {
        d / 0x100_0000
    };
    if bytes == 1 {
        x % 0x100
    } else if bytes == 2 {
        x % 0x1_0000
    } else {
        x
    }
}

/// The dword of the signed number whose `bytes` bytes are `x`.
pub open spec fn extended(x: int, bytes: int) -> u32 {
    if bytes == 1 && x >= 0x80 {
        (x + 0xffff_ff00) as u32
    } else if bytes == 2 && x >= 0x8000 {
        (x + 0xffff_0000) as u32
    } else {
        x as u32
    }
}

/// How two numbers compare.
pub enum Relation {
    Less,
    Equal,
    Greater,
    /// One of them is not a number.
    Unordered,
}

/// The bits of element `i` of a vector: a dword, or (`w` 1) a qword.
pub open spec fn element(z: Seq<u32>, w: u8, i: int) -> int {
    if w == 0 {
        z[i] as int
    } else {
        z[2 * i] + z[2 * i + 1] * 0x1_0000_0000
    }
}

/// How two floats of the same size compare, by their bits: they are in the
/// order of their magnitudes' bits where both are positive, in the other
/// order where both are negative, and the two zeros are equal.
pub open spec fn relation(w: u8, x: int, y: int) -> Relation {
    let sign: int = if w == 0 {
        0x8000_0000
    } else {
        0x8000_0000_0000_0000
    };
    let infinity: int = if w == 0 {
        0x7f80_0000
    } else {
        0x7ff0_0000_0000_0000
    };
    let a = if x >= sign {
        sign - x
    } else {
        x
    };
    let b = if y >= sign {
        sign - y
    } else {
        y
    };
    if x % sign > infinity || y % sign > infinity {
        Relation::Unordered
    } else if a < b {
        Relation::Less
    } else if a == b {
        Relation::Equal
    } else {
        Relation::Greater
    }
}

/// A dword as a signed number.
pub open spec fn signed(x: u32) -> int {
    if x < 0x8000_0000 {
        x as int
    } else {
        x - 0x1_0000_0000
    }
}

/// How two whole numbers compare.
pub open spec fn ordered(x: int, y: int) -> Relation {
    if x < y {
        Relation::Less
    } else if x == y {
        Relation::Equal
    } else {
        Relation::Greater
    }
}

/// Whether a compare with predicate `pred` holds. Those from 16 on
/// differ from the others in the exceptions they raise, not in the result.
pub open spec fn fulfils(pred: u8, r: Relation) -> bool {
    let p = pred % 16;
    let less = r is Less;
    let equal = r is Equal;
    let greater = r is Greater;
    let unordered = r is Unordered;
    if p == 0 {
        equal
    } else if p == 1 {
        less
    } else if p == 2 {
        less || equal
    } else if p == 3 {
        unordered
    } else if p == 4 {
        !equal
    } else if p == 5 {
        !less
    } else if p == 6 {
        !(less || equal)
    } else if p == 7 {
        !unordered
    } else if p == 8 {
        equal || unordered
    } else if p == 9 {
        !(greater || equal)
    } else if p == 10 {
        !greater
    } else if p == 11 {
        false
    } else if p == 12 {
        less || greater
    } else if p == 13 {
        greater || equal
    } else if p == 14 {
        greater
    } else {
        true
    }
}

/// How many elements a full vector has.
pub open spec fn elements(w: u8) -> int {
    if w == 0 {
        16
    } else {
        8
    }
}

impl Vm {
    /// Whether the instruction compares into a mask: floats or dwords, by
    /// one of the card's eight predicates, dwords for equality or for the
    /// greater, or dwords for common bits.
    pub open spec fn into_mask(m: Mvex) -> bool {
        ||| m.map == 1 && m.op == 0xC2 && m.pp == m.w && m.w <= 1 && m.imm is Some && m.imm->0 < 8
        ||| m.map == 1 && (m.op == 0x76 || m.op == 0x66) && m.pp == 1 && m.w == 0
        ||| m.map == 2 && m.op == 0x27 && m.pp == 1 && m.w == 0
        ||| m.map == 3 && (m.op == 0x1F || m.op == 0x1E) && m.pp == 1 && m.w == 0 && m.imm is Some
            && m.imm->0 < 8
    }

    /// Whether the instruction takes each lane from one source or the other,
    /// as its mask says.
    pub open spec fn blends(m: Mvex) -> bool {
        m.map == 2 && m.pp == 1 && m.w <= 1 && (m.op == 0x64 || m.op == 0x65)
    }

    /// Whether the compare holds of element `i`.
    pub open spec fn found(m: Mvex, a: Seq<u32>, b: Seq<u32>, i: int) -> bool {
        if m.map == 1 && m.op == 0xC2 {
            i < elements(m.w) && fulfils(
                m.imm->0,
                relation(m.w, element(a, m.w, i), element(b, m.w, i)),
            )
        } else if m.map == 1 && m.op == 0x76 {
            a[i] == b[i]
        } else if m.map == 1 {
            ordered(signed(a[i]), signed(b[i])) is Greater
        } else if m.map == 2 {
            a[i] & b[i] != 0
        } else if m.op == 0x1F {
            fulfils(m.imm->0, ordered(signed(a[i]), signed(b[i])))
        } else {
            fulfils(m.imm->0, ordered(a[i] as int, b[i] as int))
        }
    }

    /// The mask a compare leaves: set where it holds, of the elements its
    /// write mask selects.
    pub open spec fn compared(self, m: Mvex, a: Seq<u32>, b: Seq<u32>) -> u16 {
        mask_where(|i: int| selects(self, m.k, i) && Vm::found(m, a, b, i), 16)
    }

    pub open spec fn wf(self) -> bool {
        self.ok && forall|r: u8| (#[trigger] self.z[r]).len() == 16
    }

    /// The model left: something was run that it does not have.
    pub open spec fn lost(self) -> Vm {
        Vm { ok: false, ..self }
    }

    /// The second source of an instruction.
    pub open spec fn operand(self, consts: Seq<Seq<u8>>, rm: Rm) -> Option<Seq<u32>> {
        match rm {
            Rm::Reg(r) => Some(self.z[r]),
            Rm::Const(i) => if i < consts.len() {
                Some(words(consts[i as int]))
            } else {
                None
            },
            _ => None,
        }
    }

    /// What a vector instruction computes from its sources, in all lanes.
    pub open spec fn computed(
        self,
        m: Mvex,
        old: Seq<u32>,
        a: Seq<u32>,
        b: Seq<u32>,
    ) -> Seq<u32> {
        if m.map == 1 && m.op == 0x28 && m.pp == m.w {
            b
        } else if m.map == 1 && m.pp == 1 && lane_op(m.op, 0, 0) is Some {
            Seq::new(16, |i: int| lane_op(m.op, a[i], b[i])->0)
        } else if m.map == 1 && m.pp == 1 && m.op == 0x72 && m.imm is Some && m.imm->0 < 32 && (
        m.reg == 2 || m.reg == 4 || m.reg == 6) {
            Seq::new(16, |i: int| shifted(m.reg, b[i], m.imm->0))
        } else if m.map == 1 && m.pp == 1 && m.op == 0x70 && m.imm is Some {
            shuffled(b, m.imm->0)
        } else if m.map == 3 && m.pp == 1 && m.op == 0x07 && m.imm is Some {
            blocks(b, m.imm->0)
        } else if m.map == 3 && m.pp == 1 && m.op == 0x03 && m.imm is Some && m.imm->0 < 16 {
            aligned(a, b, m.imm->0 as int)
        } else if m.map == 2 && m.pp == 1 && m.op == 0x36 {
            picked(a, b)
        } else if m.map == 2 && m.pp == 1 && m.op == 0x40 {
            Seq::new(16, |i: int| ((a[i] * b[i]) % 0x1_0000_0000) as u32)
        } else if m.map == 2 && m.pp == 1 && m.op == 0x86 {
            Seq::new(16, |i: int| ((a[i] * b[i]) / 0x1_0000_0000) as u32)
        } else if m.map == 2 && m.pp == 1 && m.w == 0 && 0x45 <= m.op <= 0x47 {
            Seq::new(16, |i: int| shifted_by(m.op, a[i], b[i]))
        } else {
            (self.alu)(bare(m), old, a, b)
        }
    }

    /// The register a vector instruction writes.
    pub open spec fn dest(m: Mvex) -> u8 {
        if m.map == 1 && m.pp == 1 && m.op == 0x72 {
            m.vvvv
        } else {
            m.reg
        }
    }

    /// Whether an instruction uses its mask otherwise than to select the
    /// lanes it writes, or writes one: the blends, the compares, the tests.
    pub open spec fn uses_mask(m: Mvex) -> bool {
        ||| m.map == 1 && (m.op == 0xC2 || m.op == 0x76 || m.op == 0x66)
        ||| m.map == 2 && (m.op == 0x64 || m.op == 0x65 || m.op == 0x27)
        ||| m.map == 3 && (m.op == 0x1F || m.op == 0x1E)
    }

    /// Which of the dwords that an unaligned pair moves lane `i` stands for:
    /// those of the lanes selected follow each other in memory.
    pub open spec fn place(self, k: u8, i: int) -> int {
        if k == 0 {
            i
        } else {
            rank(self.k[k], i)
        }
    }

    /// Whether the half of an unaligned pair that is `low` or not moves the
    /// dword at `y` of those from `a` on: the low half moves those in the
    /// line of the first, the high half the others.
    pub open spec fn in_half(low: bool, a: int, y: int) -> bool {
        low == (y / 64 == a / 64)
    }

    /// What half of an unaligned load, of the dwords from `a` on, leaves in
    /// its register.
    pub open spec fn unpacked(self, low: bool, d: u8, k: u8, a: int) -> Seq<u32> {
        Seq::new(
            16,
            |i: int|
                if selects(self, k, i) && Vm::in_half(low, a, a + 4 * self.place(k, i)) {
                    (self.mem)(a + 4 * self.place(k, i))
                } else {
                    self.z[d][i]
                },
        )
    }

    /// What a load with the conversion `sss` makes of an element.
    pub open spec fn converted(self, sss: u8, x: int) -> u32 {
        if sss == 3 {
            (self.half)(x)
        } else if sss == 5 || sss == 7 {
            extended(x, element_bytes(sss))
        } else {
            x as u32
        }
    }

    /// Whether half of an unaligned pair converts what it loads: floats from
    /// float16, dwords from smaller integers.
    pub open spec fn converts(m: Mvex) -> bool {
        &&& m.map == 2 && m.pp == 0 && m.w == 0
        &&& if m.sss == 3 {
            m.op == 0xD1 || m.op == 0xD5
        } else {
            4 <= m.sss <= 7 && (m.op == 0xD0 || m.op == 0xD4)
        }
    }

    /// What half of an unaligned load that converts, of the elements from `a`
    /// on, leaves in its register.
    pub open spec fn unpacked_as(self, sss: u8, low: bool, d: u8, k: u8, a: int) -> Seq<u32> {
        Seq::new(
            16,
            |i: int|
                {
                    let y = a + element_bytes(sss) * self.place(k, i);
                    if selects(self, k, i) && Vm::in_half(low, a, y) {
                        self.converted(sss, part((self.mem)(y - y % 4), y, element_bytes(sss)))
                    } else {
                        self.z[d][i]
                    }
                },
        )
    }

    /// After half of an unaligned load that converts.
    #[verifier::opaque]
    pub open spec fn converting(self, m: Mvex, x: MemOp) -> Vm {
        let a = (self.addr)(x);
        let low = m.op == 0xD0 || m.op == 0xD1;
        let start = if low {
            a
        } else {
            a - 64
        };
        if Vm::converts(m) && a % element_bytes(m.sss) == 0 {
            let v = self.unpacked_as(m.sss, low, m.reg, m.k, start);
            Vm { z: self.z.insert(m.reg, v), ..self }
        } else {
            self.lost()
        }
    }

    /// The transfer slot after the lanes selected are stored there one after
    /// the other.
    pub open spec fn filled(self, s: u8, k: u8) -> Seq<u32> {
        let held = Vm { mem: |y: int| self.slot[y / 4], ..self };
        Seq::new(16, |j: int| (held.packed(true, s, k, 0))(4 * j))
    }

    /// The elements of the transfer slot, converted.
    pub open spec fn taken(self, sss: u8) -> Seq<u32> {
        let n = element_bytes(sss);
        Seq::new(16, |i: int| self.converted(sss, part(self.slot[n * i / 4], n * i, n)))
    }

    /// The half of the transfer slot that float16 lane `i` is stored in.
    pub open spec fn rounded_lane(self, s: u8, k: u8, i: int) -> int {
        if selects(self, k, i) {
            (self.rounded)(self.z[s][i]) as int
        } else {
            part(self.slot[i / 2], 2 * i, 2)
        }
    }

    /// The transfer slot after the lanes selected are stored there as float16,
    /// each in its place.
    pub open spec fn narrowed(self, s: u8, k: u8) -> Seq<u32> {
        Seq::new(
            16,
            |j: int|
                if j < 8 {
                    (self.rounded_lane(s, k, 2 * j) + self.rounded_lane(s, k, 2 * j + 1)
                        * 0x1_0000) as u32
                } else {
                    self.slot[j]
                },
        )
    }

    /// After an instruction whose operand is the transfer slot: the low half
    /// of an unaligned store, a store as float16, or a load.
    #[verifier::opaque]
    pub open spec fn transfer(self, m: Mvex) -> Vm {
        let loads = m.map == 1 && m.w == 0 && (if m.sss == 0 || m.sss == 3 {
            m.op == 0x28 && m.pp == 0
        } else {
            4 <= m.sss <= 7 && m.op == 0x6F && m.pp == 1
        });
        if m.map == 2 && m.pp == 1 && m.w == 0 && m.op == 0xD0 && m.sss == 0 {
            Vm { slot: self.filled(m.reg, m.k), ..self }
        } else if m.map == 1 && m.pp == 0 && m.w == 0 && m.op == 0x29 && m.sss == 3 {
            Vm { slot: self.narrowed(m.reg, m.k), ..self }
        } else if loads {
            let v = self.taken(m.sss);
            Vm { z: self.z.insert(m.reg, merged(self.z[m.reg], v, m.k, self.k[m.k], 0)), ..self }
        } else {
            self.lost()
        }
    }

    /// What is known of a general register: of rax and rcx, which the
    /// sequences use, the low dword alone, and that where the model has it.
    pub open spec fn general_value(self, r: u8, wide: bool) -> Option<(u32, u32)> {
        if r > 1 {
            Some(self.general[r])
        } else if wide {
            None
        } else if r == 0 && self.gp.0 is Some {
            Some((self.gp.0->0, 0))
        } else if r == 1 && self.gp.1 is Some {
            Some((self.gp.1->0, 0))
        } else {
            None
        }
    }

    /// After an instruction whose operand is the two dwords kept for general
    /// registers: the low half of an unaligned store of one or two lanes, or a
    /// broadcast. They are the seventh and eighth of their line.
    #[verifier::opaque]
    pub open spec fn exchange(self, m: Mvex) -> Vm {
        let held = Vm {
            mem: |y: int|
                if y == 24 {
                    self.word.0
                } else {
                    self.word.1
                },
            ..self
        };
        if m.map == 2 && m.pp == 1 && m.w == 0 && m.op == 0xD0 && m.sss == 0 && m.k != 0 && rank(
            self.k[m.k],
            16,
        ) <= 2 {
            let after = held.packed(true, m.reg, m.k, 24);
            Vm { word: (after(24), after(28)), ..self }
        } else if m.map == 2 && m.pp == 1 && m.w <= 1 && m.op == 0x18 + m.w && m.sss == 0 {
            let v = Seq::new(
                16,
                |i: int|
                    if m.w == 0 || i % 2 == 0 {
                        self.word.0
                    } else {
                        self.word.1
                    },
            );
            Vm { z: self.z.insert(m.reg, merged(self.z[m.reg], v, m.k, self.k[m.k], m.w)), ..self }
        } else {
            self.lost()
        }
    }

    /// Whether half of an unaligned store to the dwords from `a` on writes
    /// lane `i` to `y`.
    pub open spec fn packs(self, low: bool, k: u8, a: int, i: int, y: int) -> bool {
        &&& 0 <= i < 16
        &&& selects(self, k, i)
        &&& y == a + 4 * self.place(k, i)
        &&& Vm::in_half(low, a, y)
    }

    /// The memory half of an unaligned store leaves.
    pub open spec fn packed(self, low: bool, s: u8, k: u8, a: int) -> spec_fn(int) -> u32 {
        |y: int|
            if exists|i: int| self.packs(low, k, a, i, y) {
                self.z[s][choose|i: int| self.packs(low, k, a, i, y)]
            } else {
                (self.mem)(y)
            }
    }

    /// The element at `a` in every element.
    pub open spec fn spread(self, w: u8, a: int) -> Seq<u32> {
        Seq::new(
            16,
            |i: int|
                if w == 0 {
                    (self.mem)(a)
                } else {
                    (self.mem)(a + 4 * (i % 2))
                },
        )
    }

    /// With rax and rcx given back what they held where the operand is
    /// addressed by them: eax and ecx are not known there.
    pub open spec fn recovered(self, x: MemOp) -> Vm {
        Vm {
            gp: (
                if x.spec_uses(0) {
                    None
                } else {
                    self.gp.0
                },
                if x.spec_uses(1) {
                    None
                } else {
                    self.gp.1
                },
            ),
            ..self
        }
    }

    /// After an instruction with a memory operand: half of an unaligned pair,
    /// a broadcast, or an instruction whose operand is broadcast to it.
    pub open spec fn memory(self, m: Mvex, x: MemOp) -> Vm {
        let a = (self.addr)(x);
        let d = Vm::dest(m);
        let pair = m.map == 2 && m.w == 0 && m.sss == 0 && (m.op == 0xD0 || m.op == 0xD4);
        let low = m.op == 0xD0;
        let start = if low {
            a
        } else {
            a - 64
        };
        if m.sss >= 3 {
            self.converting(m, x)
        } else if a % 4 != 0 {
            self.lost()
        } else if pair && m.pp == 0 {
            Vm { z: self.z.insert(m.reg, self.unpacked(low, m.reg, m.k, start)), ..self }
        } else if pair && m.pp == 1 {
            Vm { mem: self.packed(low, m.reg, m.k, start), ..self }
        } else if m.w > 1 || (m.w == 1 && a % 8 != 0) {
            self.lost()
        } else if m.sss == 1 && !Vm::uses_mask(m) {
            let v = self.computed(m, self.z[d], self.z[m.vvvv], self.spread(m.w, a));
            Vm { z: self.z.insert(d, merged(self.z[d], v, m.k, self.k[m.k], m.w)), ..self }
        } else if m.sss == 1 && Vm::into_mask(m) {
            Vm {
                k: self.k.insert(m.reg, self.compared(m, self.z[m.vvvv], self.spread(m.w, a))),
                ..self
            }
        } else if m.sss == 0 && m.map == 2 && m.pp == 1 && m.op == 0x18 + m.w {
            let v = self.spread(m.w, a);
            Vm { z: self.z.insert(d, merged(self.z[d], v, m.k, self.k[m.k], m.w)), ..self }
        } else {
            self.lost()
        }
    }

    /// After a vector instruction: its result in the lanes its mask selects.
    pub open spec fn mvex(self, consts: Seq<Seq<u8>>, m: Mvex) -> Vm {
        match self.operand(consts, m.rm) {
            Some(b) => if m.sss == 0 && !Vm::uses_mask(m) {
                let d = Vm::dest(m);
                let v = self.computed(m, self.z[d], self.z[m.vvvv], b);
                Vm { z: self.z.insert(d, merged(self.z[d], v, m.k, self.k[m.k], m.w)), ..self }
            } else if m.sss == 0 && Vm::into_mask(m) {
                Vm { k: self.k.insert(m.reg, self.compared(m, self.z[m.vvvv], b)), ..self }
            } else if m.sss == 0 && Vm::blends(m) {
                let v = merged(self.z[m.vvvv], b, m.k, self.k[m.k], m.w);
                Vm { z: self.z.insert(m.reg, v), ..self }
            } else {
                self.lost()
            },
            None => match m.rm {
                Rm::Mem(x) => self.recovered(x).memory(m, x),
                Rm::Fs(off) => if off == S_XFER {
                    self.transfer(m)
                } else if off == S_GPR {
                    self.exchange(m)
                } else {
                    self.lost()
                },
                _ => self.lost(),
            },
        }
    }

    /// After a mask instruction. A mask has sixteen bits.
    pub open spec fn vexk(self, op: u8, reg: u8, rm: u8) -> Vm {
        if op == 0x92 {
            if rm == 0 && self.gp.0 is Some {
                Vm { k: self.k.insert(reg, (self.gp.0->0 % 0x1_0000) as u16), ..self }
            } else if rm == 1 && self.gp.1 is Some {
                Vm { k: self.k.insert(reg, (self.gp.1->0 % 0x1_0000) as u16), ..self }
            } else {
                self.lost()
            }
        } else if op == 0x93 {
            if reg == 0 {
                Vm { gp: (Some(self.k[rm] as u32), self.gp.1), ..self }
            } else if reg == 1 {
                Vm { gp: (self.gp.0, Some(self.k[rm] as u32)), ..self }
            } else {
                self.lost()
            }
        } else {
            match mask_result(op, self.k[reg], self.k[rm]) {
                Some(m) => Vm { k: self.k.insert(reg, m), ..self },
                None => self.lost(),
            }
        }
    }

    /// After one step. What is saved before it is clobbered keeps its value;
    /// saving the scratch mask or the flags goes through rax.
    pub open spec fn step(self, consts: Seq<Seq<u8>>, s: Step) -> Vm {
        match s {
            Step::Rax => self,
            Step::Rcx => self,
            Step::K => Vm { gp: (None, self.gp.1), ..self },
            Step::Flags => Vm { gp: (None, self.gp.1), ..self },
            Step::Temp(_) => self,
            Step::Mvex(m) => self.mvex(consts, m),
            Step::VexK { op, reg, rm } => self.vexk(op, reg, rm),
            Step::Raw(b) => match ran(b, self.gp) {
                Some(r) => Vm { gp: r, ..self },
                None => self.lost(),
            },
            Step::Gpr { r, wide, off, store } => match self.general_value(r, wide) {
                Some(v) => if store && off == S_GPR {
                    Vm {
                        word: if wide {
                            v
                        } else {
                            (v.0, self.word.1)
                        },
                        ..self
                    }
                } else {
                    self.lost()
                },
                None => self.lost(),
            },
            Step::Tail { r, wide, off } => if off == S_GPR {
                Vm {
                    general: self.general.insert(
                        r,
                        if wide {
                            self.word
                        } else {
                            (self.word.0, 0)
                        },
                    ),
                    ..self
                }
            } else {
                self.lost()
            },
            _ => self.lost(),
        }
    }

    /// After the steps of a sequence, whose constants are `consts`.
    pub open spec fn run(self, consts: Seq<Seq<u8>>, steps: Seq<Step>) -> Vm
        decreases steps.len(),
    {
        if steps.len() == 0 {
            self
        } else {
            self.run(consts, steps.drop_last()).step(consts, steps.last())
        }
    }
}

/// One step more is that step taken after the others.
pub broadcast proof fn lemma_run(vm: Vm, consts: Seq<Seq<u8>>, steps: Seq<Step>, s: Step)
    ensures
        #[trigger] vm.run(consts, steps.push(s)) == vm.run(consts, steps).step(consts, s),
{
    assert(steps.push(s).drop_last() =~= steps);
}

impl Prog {
    /// What the sequence so far does to the registers, its constants being
    /// `consts` in the end.
    pub open spec fn meaning(self, consts: Seq<Seq<u8>>, vm: Vm) -> Vm {
        vm.run(consts, self.steps)
    }
}

/// `mov eax, imm32` leaves the immediate in eax.
pub proof fn lemma_mov_eax(imm: u32, r: (Option<u32>, Option<u32>))
    ensures
        ran(seq![0xb8u8] + bits::le32(imm), r) == Some((Some(imm), r.1)),
{
    let b = seq![0xb8u8] + bits::le32(imm);
    bits::lemma_word32(imm);
    let w = bits::le32(imm);
    assert(b[1] == w[0] && b[2] == w[1] && b[3] == w[2] && b[4] == w[3]);
    assert(b.skip(5) =~= seq![]);
    reveal_with_fuel(ran, 2);
}

/// Setting the scratch mask changes it, eax, and nothing else.
pub proof fn lemma_mask_imm(p: Prog, consts: Seq<Seq<u8>>, vm: Vm, mask: u16)
    ensures
        ({
            let before = p.meaning(consts, vm);
            p.mask_imm(mask).meaning(consts, vm) == (Vm {
                k: before.k.insert(p.kscr, mask),
                gp: (Some(mask as u32), before.gp.1),
                ..before
            })
        }),
{
    broadcast use lemma_run;

    lemma_mov_eax(mask as u32, (None, p.meaning(consts, vm).gp.1));
}

/// The bits of a conjunction and of a complement.
pub proof fn lemma_bits(a: u16, b: u16, i: u16)
    requires
        i < 16,
    ensures
        bit(a & b, i as int) == (bit(a, i as int) && bit(b, i as int)),
        bit(a | b, i as int) == (bit(a, i as int) || bit(b, i as int)),
        bit(!a, i as int) == !bit(a, i as int),
        !bit(0, i as int),
{
    assert((((a & b) >> i) & 1 == 1 <==> ((a >> i) & 1 == 1 && (b >> i) & 1 == 1)) && (((a | b) >> i)
        & 1 == 1 <==> ((a >> i) & 1 == 1 || (b >> i) & 1 == 1)) && ((!a >> i) & 1
        == 1 <==> !((a >> i) & 1 == 1)) && (0u16 >> i) & 1 != 1) by (bit_vector)
        requires
            i < 16,
    ;
}

/// The lanes the masks of the sequences select.
pub proof fn lemma_lanes(i: u16)
    requires
        i < 16,
    ensures
        bit(0x0001, i as int) == (i < 1),
        bit(0x0002, i as int) == (i == 1),
        bit(0x000e, i as int) == (1 <= i < 4),
        bit(0x0003, i as int) == (i < 2),
        bit(0xfffc, i as int) == (i >= 2),
        bit(0xfffe, i as int) == (i >= 1),
        bit(0x000f, i as int) == (i < 4),
        bit(0x00ff, i as int) == (i < 8),
        bit(0xffff, i as int),
        bit(0xfff0, i as int) == (i >= 4),
        bit(0xff00, i as int) == (i >= 8),
        bit(0x5555, i as int) == (i % 2 == 0),
        bit(0xaaaa, i as int) == (i % 2 == 1),
        bit(0x3333, i as int) == (i % 4 < 2),
        bit(0xcccc, i as int) == (i % 4 >= 2),
        bit(0x8888, i as int) == (i % 4 >= 3),
        bit(0xeeee, i as int) == (i % 4 >= 1),
        bit(0x1111, i as int) == (i % 4 < 1),
        bit(0x7777, i as int) == (i % 4 < 3),
        bit(0x00f0, i as int) == (4 <= i < 8),
        bit(0x0f00, i as int) == (8 <= i < 12),
        bit(0xf000, i as int) == (12 <= i),
{
    assert(((0x0001u16 >> i) & 1 == 1 <==> i < 1) && ((0x0002u16 >> i) & 1 == 1 <==> i == 1) && ((
    0x000eu16 >> i) & 1 == 1 <==> (1 <= i && i < 4)) && ((0x0003u16 >> i) & 1 == 1 <==> i < 2) && ((
    0xfffcu16 >> i) & 1 == 1 <==> i >= 2) && ((0xfffeu16 >> i) & 1 == 1 <==> i >= 1) && ((0x000fu16 >> i) & 1 == 1 <==> i < 4) && ((
    0x00ffu16 >> i) & 1 == 1 <==> i < 8) && ((0xffffu16 >> i) & 1 == 1) && ((0xfff0u16 >> i) & 1
        == 1 <==> i >= 4) && ((0xff00u16 >> i) & 1 == 1 <==> i >= 8) && ((0x5555u16 >> i) & 1 == 1
        <==> i % 2 == 0) && ((0xaaaau16 >> i) & 1 == 1 <==> i % 2 == 1) && ((0x3333u16 >> i) & 1
        == 1 <==> i % 4 < 2) && ((0xccccu16 >> i) & 1 == 1 <==> i % 4 >= 2) && ((0x8888u16 >> i)
        & 1 == 1 <==> i % 4 >= 3) && ((0xeeeeu16 >> i) & 1 == 1 <==> i % 4 >= 1) && ((0x1111u16
        >> i) & 1 == 1 <==> i % 4 < 1) && ((0x7777u16 >> i) & 1 == 1 <==> i % 4 < 3) && ((
    0x00f0u16 >> i) & 1 == 1 <==> (4 <= i && i < 8)) && ((0x0f00u16 >> i) & 1 == 1 <==> (8 <= i
        && i < 12)) && ((0xf000u16 >> i) & 1 == 1 <==> 12 <= i)) by (bit_vector)
        requires
            i < 16,
    ;
}

/// How many dwords a vector of length `ll` has.
pub open spec fn dwords_of(ll: u8) -> int {
    if ll == 0 {
        4
    } else if ll == 1 {
        8
    } else {
        16
    }
}

/// What AVX-512 leaves in a destination that held `old` when the result is
/// `new` and the write mask register holds `mask`: the result in the lanes
/// selected, zero or what was there in the others, zero above the length.
pub open spec fn written(ev: Ev, old: Seq<u32>, new: Seq<u32>, mask: u16) -> Seq<u32> {
    Seq::new(
        16,
        |i: int|
            if i >= dwords_of(ev.ll) {
                0u32
            } else if ev.aaa == 0 || bit(mask, if ev.w == 0 { i } else { i / 2 }) {
                new[i]
            } else if ev.z {
                0u32
            } else {
                old[i]
            },
    )
}

/// Whether `after` differs from `before` in no vector register but `d`, in no
/// mask register but the scratch one, and not in memory.
pub open spec fn only(before: Vm, after: Vm, d: u8, kscr: u8) -> bool {
    &&& after.wf()
    &&& forall|r: u8| r != d ==> #[trigger] after.z[r] == before.z[r]
    &&& forall|k: u8| k != kscr ==> #[trigger] after.k[k] == before.k[k]
    &&& after.alu == before.alu
    &&& after.mem == before.mem
}

/// Zeroing the lanes of a mask.
pub proof fn lemma_zero(p: Prog, consts: Seq<Seq<u8>>, vm: Vm, d: u8, k: u8, w: u8)
    requires
        p.meaning(consts, vm).wf(),
    ensures
        ({
            let before = p.meaning(consts, vm);
            let after = p.zero(d, k, w).meaning(consts, vm);
            &&& only(before, after, d, k)
            &&& after.k == before.k
            &&& after.gp == before.gp
            &&& forall|i: int|
                0 <= i < 16 ==> #[trigger] after.z[d][i] == (if k == 0 || bit(
                    before.k[k],
                    if w == 0 { i } else { i / 2 },
                ) {
                    0
                } else {
                    before.z[d][i]
                })
        }),
{
    broadcast use lemma_run;

    let before = p.meaning(consts, vm);
    assert forall|i: int| 0 <= i < 16 implies #[trigger] before.z[d][i] ^ before.z[d][i] == 0 by {
        lemma_shortcuts(0, before.z[d][i], 0, 0);
    }
}

/// A result is written as AVX-512 writes it: under the mask, merging or
/// zeroing, and zero above the vector length, whatever the registers hold.
#[verifier::rlimit(30)]
pub proof fn law_commit(p: Prog, consts: Seq<Seq<u8>>, vm: Vm, d: u8, r: u8, ev: Ev)
    requires
        p.meaning(consts, vm).wf(),
        ev.ll <= 2,
        ev.w <= 1,
        p.kscr != 0,
        ev.aaa != p.kscr,
    ensures
        ({
            let before = p.meaning(consts, vm);
            let after = p.commit(d, r, ev).meaning(consts, vm);
            &&& only(before, after, d, p.kscr)
            &&& after.z[d] == written(ev, before.z[d], before.z[r], before.k[ev.aaa])
        }),
{
    broadcast use lemma_run;

    reveal(Prog::commit);
    let full = ev.ll == 2;
    let k = if full && ev.aaa == 0 {
        0
    } else {
        p.kscr
    };
    let vl = ev::vl_lanes(ev.ll, ev.w);
    let before = p.meaning(consts, vm);
    let masked = if full && ev.aaa == 0 {
        p
    } else if ev.aaa != 0 {
        p.mask_imm(vl).vexk(0x41, k, ev.aaa)
    } else {
        p.mask_imm(vl)
    };
    lemma_mask_imm(p, consts, vm, vl);
    let m = masked.meaning(consts, vm);
    assert(only(before, m, d, p.kscr) && m.z == before.z);
    let moved = if r != d {
        masked.vmov(d, Rm::Reg(r), k, ev.w)
    } else {
        masked
    };
    let mv = moved.meaning(consts, vm);
    assert(only(before, mv, d, p.kscr) && mv.k == m.k);
    let zeroed = if ev.z && ev.aaa != 0 {
        moved.step(Step::K).vexk(0x44, p.kscr, k).zero(d, p.kscr, ev.w)
    } else {
        moved
    };
    if ev.z && ev.aaa != 0 {
        lemma_zero(moved.step(Step::K).vexk(0x44, p.kscr, k), consts, vm, d, p.kscr, ev.w);
    }
    let zd = zeroed.meaning(consts, vm);
    assert(only(before, zd, d, p.kscr));
    if !full {
        lemma_mask_imm(zeroed, consts, vm, ev::upper(ev.ll));
        lemma_zero(zeroed.mask_imm(ev::upper(ev.ll)), consts, vm, d, p.kscr, 0);
    }
    let after = p.commit(d, r, ev).meaning(consts, vm);
    assert forall|i: int| 0 <= i < 16 implies #[trigger] after.z[d][i] == written(
        ev,
        before.z[d],
        before.z[r],
        before.k[ev.aaa],
    )[i] by {
        let j: int = if ev.w == 0 { i } else { i / 2 };
        lemma_lanes(i as u16);
        lemma_lanes(j as u16);
        lemma_bits(vl, before.k[ev.aaa], j as u16);
        lemma_bits(m.k[p.kscr], 0, j as u16);
    }
    assert(after.z[d] =~= written(ev, before.z[d], before.z[r], before.k[ev.aaa]));
}

/// Committing takes no temporary and no constant.
pub proof fn lemma_commit_takes(p: Prog, d: u8, r: u8, ev: Ev)
    ensures
        ({
            let q = p.commit(d, r, ev);
            &&& q.consts == p.consts
            &&& q.temps == p.temps
            &&& q.kscr == p.kscr
        }),
{
    reveal(Prog::commit);
}

/// A constant made of dwords holds them.
pub proof fn lemma_words(v: Seq<u32>)
    requires
        v.len() == 16,
    ensures
        words(prog::dwords(v)) == v,
{
    let c = prog::dwords(v);
    assert forall|i: int| 0 <= i < 16 implies #[trigger] words(c)[i] == v[i] by {
        let w = bits::le32(v[i]);
        bits::lemma_word32(v[i]);
        assert(c[4 * i] == w[0] && c[4 * i + 1] == w[1] && c[4 * i + 2] == w[2] && c[4 * i + 3]
            == w[3]);
    }
    assert(words(c) =~= v);
}

/// A constant is where the sequence then names it.
pub proof fn lemma_found(consts: Seq<Seq<u8>>, c: Seq<u8>, i: int)
    requires
        0 <= i,
    ensures
        prog::find_from(consts, c, i) matches Some(j) ==> i <= j < consts.len() && consts[j] == c,
    decreases consts.len() - i,
{
    if i < consts.len() && consts[i] != c {
        lemma_found(consts, c, i + 1);
    }
}

/// Whether `after` differs from `before` in no vector register but `d` and
/// the temporaries, in no mask register but the scratch one, and not in
/// memory.
pub open spec fn apart(before: Vm, after: Vm, temps: Seq<u8>, d: u8, kscr: u8) -> bool {
    &&& after.wf()
    &&& forall|r: u8| r != d && !temps.contains(r) ==> #[trigger] after.z[r] == before.z[r]
    &&& forall|k: u8| k != kscr ==> #[trigger] after.k[k] == before.k[k]
    &&& after.mem == before.mem
}

/// Bit `j` of a dword.
pub open spec fn bit32(x: u32, j: int) -> bool {
    (x >> (j as u32)) & 1 == 1
}

pub proof fn lemma_bits32(x: u32, y: u32, j: u32)
    requires
        j < 32,
    ensures
        bit32(x & y, j as int) == (bit32(x, j as int) && bit32(y, j as int)),
        bit32(x | y, j as int) == (bit32(x, j as int) || bit32(y, j as int)),
        bit32(x ^ y, j as int) == (bit32(x, j as int) != bit32(y, j as int)),
        bit32(!x, j as int) == !bit32(x, j as int),
        !bit32(0, j as int),
        bit32(0xffff_ffff, j as int),
{
    assert((((x & y) >> j) & 1 == 1 <==> ((x >> j) & 1 == 1 && (y >> j) & 1 == 1)) && (((x | y)
        >> j) & 1 == 1 <==> ((x >> j) & 1 == 1 || (y >> j) & 1 == 1)) && (((x ^ y) >> j) & 1 == 1
        <==> ((x >> j) & 1 == 1) != ((y >> j) & 1 == 1)) && ((!x >> j) & 1 == 1 <==> !((x >> j) & 1
        == 1)) && (0u32 >> j) & 1 != 1 && (0xffff_ffffu32 >> j) & 1 == 1) by (bit_vector)
        requires
            j < 32,
    ;
}

/// Two dwords with the same bits are the same, and the shortcuts of the
/// ternary function give what the general way does.
pub proof fn lemma_shortcuts(imm: u8, a: u32, b: u32, c: u32)
    ensures
        imm >> 4 == imm / 16,
        imm & 0xf == imm % 16,
        (imm >> 4) & 0xf == imm / 16,
        (imm & 0xf) & 0xf == imm % 16,
        (a & !(b ^ c)) | (!a & (b ^ c)) == a ^ b ^ c,
        (a & 0xffff_ffff) | (!a & 0xffff_ffff) == 0xffff_ffff,
        (a & 0) | (!a & 0) == 0,
        a ^ 0xffff_ffff == !a,
        a ^ a == 0,
        a & a == a,
{
    assert(imm >> 4 == imm / 16 && imm & 0xf == imm % 16 && (imm >> 4) & 0xf == imm / 16 && (imm
        & 0xf) & 0xf == imm % 16 && (a & !(b ^ c)) | (!a & (b ^ c)) == a ^ b ^ c && (a & 0xffff_ffff) | (!a & 0xffff_ffff)
        == 0xffff_ffff && (a & 0) | (!a & 0) == 0 && a ^ 0xffff_ffff == !a && a ^ a == 0 && a & a == a)
        by (bit_vector);
}

/// An unmasked lane-wise instruction writes its result and nothing else.
pub proof fn lemma_i0f(
    p: Prog,
    consts: Seq<Seq<u8>>,
    vm: Vm,
    op: u8,
    d: u8,
    s1: u8,
    rm: Rm,
    w: u8,
)
    requires
        lane_op(op, 0, 0) is Some,
        p.meaning(consts, vm).operand(consts, rm) is Some,
    ensures
        ({
            let before = p.meaning(consts, vm);
            let b = before.operand(consts, rm)->0;
            p.i0f(op, d, s1, rm, 0, w).meaning(consts, vm) == (Vm {
                z: before.z.insert(
                    d,
                    Seq::new(16, |i: int| lane_op(op, before.z[s1][i], b[i])->0),
                ),
                ..before
            })
        }),
{
    broadcast use lemma_run;

    let before = p.meaning(consts, vm);
    let b = before.operand(consts, rm)->0;
    let after = p.i0f(op, d, s1, rm, 0, w).meaning(consts, vm);
    assert(after.z[d] =~= Seq::new(16, |i: int| lane_op(op, before.z[s1][i], b[i])->0));
}

/// An unmasked move writes its source and nothing else.
pub proof fn lemma_vmov(p: Prog, consts: Seq<Seq<u8>>, vm: Vm, d: u8, rm: Rm, w: u8)
    requires
        p.meaning(consts, vm).operand(consts, rm) is Some,
        p.meaning(consts, vm).operand(consts, rm)->0.len() == 16,
    ensures
        ({
            let before = p.meaning(consts, vm);
            p.vmov(d, rm, 0, w).meaning(consts, vm) == (Vm {
                z: before.z.insert(d, before.operand(consts, rm)->0),
                ..before
            })
        }),
{
    broadcast use lemma_run;

    let before = p.meaning(consts, vm);
    let after = p.vmov(d, rm, 0, w).meaning(consts, vm);
    assert(after.z[d] =~= before.operand(consts, rm)->0);
}

/// An instruction of a length and an element size there are, whose write mask
/// is one it names.
pub open spec fn shaped(insn: Decoded, ev: Ev) -> bool {
    &&& insn.head.op_count <= 5
    &&& ev.ll <= 2
    &&& ev.w <= 1
    &&& ev.aaa != 0 ==> prog::mask_regs(insn).contains(ev.aaa)
}

/// Such an instruction between registers.
pub open spec fn between(insn: Decoded, ev: Ev) -> bool {
    !insn.has_mem() && shaped(insn, ev)
}

/// Whether the second source is at hand: a register, or one element of
/// memory, on its boundary, to be broadcast.
pub open spec fn at_hand(vm: Vm, insn: Decoded, ev: Ev) -> bool {
    match MemOp::spec_of(insn) {
        None => true,
        Some(m) => {
            &&& (vm.addr)(m) % 4 == 0
            &&& ev.w == 1 ==> (vm.addr)(m) % 8 == 0
        },
    }
}

/// That second source.
pub open spec fn second(vm: Vm, insn: Decoded, ev: Ev) -> Seq<u32> {
    match MemOp::spec_of(insn) {
        None => vm.z[ev.rm],
        Some(m) => vm.spread(ev.w, (vm.addr)(m)),
    }
}

/// How an instruction of the card names that second source, with its
/// broadcast field.
pub open spec fn second_rm(insn: Decoded, ev: Ev) -> (Rm, u8) {
    match MemOp::spec_of(insn) {
        None => (Rm::Reg(ev.rm), 0),
        Some(m) => (Rm::Mem(m), 1),
    }
}

/// An instruction writes what it computes of that second source, where its
/// mask selects.
pub proof fn lemma_second(
    p: Prog,
    consts: Seq<Seq<u8>>,
    vm: Vm,
    insn: Decoded,
    ev: Ev,
    m: Mvex,
    k: u8,
)
    requires
        at_hand(p.meaning(consts, vm), insn, ev),
        !Vm::uses_mask(m),
        m.w == ev.w,
        ev.w <= 1,
    ensures
        ({
            let before = p.meaning(consts, vm);
            let (rm, sss) = second_rm(insn, ev);
            let d = Vm::dest(m);
            let v = before.computed(m, before.z[d], before.z[m.vvvv], second(before, insn, ev));
            let after = p.mvex(m.map, m.pp, m.w, m.op, m.reg, m.vvvv, rm, k, sss, m.imm).meaning(
                consts,
                vm,
            );
            after == (Vm {
                z: before.z.insert(d, merged(before.z[d], v, k, before.k[k], m.w)),
                gp: after.gp,
                ..before
            })
        }),
{
    broadcast use lemma_run;

    let before = p.meaning(consts, vm);
    let (rm, sss) = second_rm(insn, ev);
    let used = Mvex { rm, k, sss, ..m };
    assert(bare(used) == bare(m));
    assert(p.mvex(m.map, m.pp, m.w, m.op, m.reg, m.vvvv, rm, k, sss, m.imm).meaning(consts, vm)
        == before.mvex(consts, used));
}

/// Whether the vector register `r` is one the instruction names.
pub open spec fn named(insn: Decoded, r: u8) -> bool {
    prog::operand_vregs(insn, insn.head.op_count as int).contains(r)
}

pub proof fn lemma_few_vregs(insn: Decoded, n: int)
    requires
        0 <= n,
    ensures
        prog::operand_vregs(insn, n).len() <= n,
    decreases n,
{
    if n > 0 {
        lemma_few_vregs(insn, n - 1);
    }
}

/// Taking a temporary changes nothing.
pub proof fn lemma_temp(p: Prog, consts: Seq<Seq<u8>>, vm: Vm)
    ensures
        p.temp().meaning(consts, vm) == p.meaning(consts, vm),
{
    broadcast use lemma_run;

}

/// The first two temporaries of a sequence are registers of their own, and
/// its scratch mask is one the instruction does not name.
pub proof fn lemma_begin(scratch: i32, insn: Decoded, ev: Ev)
    requires
        shaped(insn, ev),
    ensures
        ({
            let p = Prog::start(scratch, insn);
            let t1 = p.next_temp();
            let t2 = p.temp().next_temp();
            &&& t1 != t2
            &&& p.temp().temps == seq![t1]
            &&& p.temp().temp().temps == seq![t1, t2]
            &&& forall|r: u8| #[trigger] named(insn, r) ==> r != t1 && r != t2
            &&& 1 <= p.kscr <= 7
            &&& ev.aaa != p.kscr
        }),
{
    let p = Prog::start(scratch, insn);
    let ops = prog::operand_vregs(insn, insn.head.op_count as int);
    lemma_few_vregs(insn, insn.head.op_count as int);
    laws::law_scratch_mask(scratch, insn);
    let t1 = p.next_temp();
    let used = ops + seq![];
    em::lemma_some_free(used);
    assert(p.operands + p.temps == used);
    let q = p.temp();
    let t2 = q.next_temp();
    let used2 = ops + seq![t1];
    assert(q.temps =~= seq![t1]);
    assert(q.operands + q.temps == used2);
    em::lemma_some_free(used2);
    assert(used2[ops.len() as int] == t1);
    assert(q.temp().temps =~= seq![t1, t2]);
    assert forall|r: u8| #[trigger] named(insn, r) implies r != t1 && r != t2 by {
        let i = choose|i: int| 0 <= i < ops.len() && ops[i] == r;
        assert(used[i] == r && used2[i] == r);
    }
}

/// The same of an instruction between registers, which has no memory operand.
pub proof fn lemma_start(scratch: i32, insn: Decoded, ev: Ev)
    requires
        between(insn, ev),
    ensures
        ({
            let p = Prog::start(scratch, insn);
            let t1 = p.next_temp();
            let t2 = p.temp().next_temp();
            &&& t1 != t2
            &&& p.temp().temps == seq![t1]
            &&& p.temp().temp().temps == seq![t1, t2]
            &&& forall|r: u8| #[trigger] named(insn, r) ==> r != t1 && r != t2
            &&& 1 <= p.kscr <= 7
            &&& ev.aaa != p.kscr
        }),
        MemOp::spec_of(insn) is None,
{
    lemma_begin(scratch, insn, ev);
}

/// The fields of the shuffles that the sequences use.
pub proof fn lemma_fields(j: u8, imm: u8)
    requires
        j < 4,
    ensures
        0 <= field(imm, j as int) < 4,
        field(0x00, j as int) == 0,
        field(0x55, j as int) == 1,
        field(0xaa, j as int) == 2,
        field(0xff, j as int) == 3,
        field(0x44, j as int) == j % 2,
        field(0xee, j as int) == 2 + j % 2,
        field(0x50, j as int) == j / 2,
        field(0xfa, j as int) == 2 + j / 2,
        field(0xa0, j as int) == j - j % 2,
        field(0xf5, j as int) == j - j % 2 + 1,
        field(0xe4, j as int) == j,
        field(0x39, j as int) == (j + 1) % 4,
        field(0x4e, j as int) == (j + 2) % 4,
        field(0x93, j as int) == (j + 3) % 4,
        0x18u8 | 0 == 0x18,
        0x18u8 | 1 == 0x19,
{
    let k = (2 * j) as u8;
    assert((imm >> k) & 3 < 4 && (0x00u8 >> k) & 3 == 0 && (0x55u8 >> k) & 3 == 1 && (0xaau8 >> k) & 3
        == 2 && (0xffu8 >> k) & 3 == 3 && (0x44u8 >> k) & 3 == j % 2 && (0xeeu8 >> k) & 3 == 2 + j
        % 2 && (0x50u8 >> k) & 3 == j / 2 && (0xfau8 >> k) & 3 == 2 + j / 2 && (0xa0u8 >> k) & 3
        == j - j % 2 && (0xf5u8 >> k) & 3 == j - j % 2 + 1 && (0xe4u8 >> k) & 3 == j && (0x39u8 >> k)
        & 3 == (j + 1) % 4 && (0x4eu8 >> k) & 3 == (j + 2) % 4 && (0x93u8 >> k) & 3 == (j + 3) % 4
        && 0x18u8 | 0 == 0x18 && 0x18u8 | 1 == 0x19)
        by (bit_vector)
        requires
            j < 4,
            k == 2 * j,
    ;
}

/// Whether `after` is `before` with another value in the register `d`.
pub open spec fn put(before: Vm, after: Vm, d: u8) -> bool {
    &&& after == (Vm { z: before.z.insert(d, after.z[d]), ..before })
    &&& after.z[d].len() == 16
}

/// Whether `after` is `before` with another value in the vector register `d`,
/// read from memory.
pub open spec fn fetched(before: Vm, after: Vm, d: u8) -> bool {
    &&& after == (Vm { z: before.z.insert(d, after.z[d]), gp: after.gp, ..before })
    &&& after.z[d].len() == 16
}

/// Whether the mask register `k` selects the dword lane `i`; k0 stands for
/// all.
pub open spec fn selects(vm: Vm, k: u8, i: int) -> bool {
    k == 0 || bit(vm.k[k], i)
}

/// A shift by an immediate under a mask.
pub proof fn lemma_shift_imm(
    p: Prog,
    consts: Seq<Seq<u8>>,
    vm: Vm,
    which: u8,
    d: u8,
    s: u8,
    n: u8,
    k: u8,
)
    requires
        which == 2 || which == 4 || which == 6,
        n < 32,
    ensures
        ({
            let before = p.meaning(consts, vm);
            let after = p.shift_imm(which, d, Rm::Reg(s), n, k).meaning(consts, vm);
            &&& put(before, after, d)
            &&& forall|i: int|
                0 <= i < 16 ==> #[trigger] after.z[d][i] == (if selects(before, k, i) {
                    shifted(which, before.z[s][i], n)
                } else {
                    before.z[d][i]
                })
        }),
{
    broadcast use lemma_run;

    let before = p.meaning(consts, vm);
    let after = p.shift_imm(which, d, Rm::Reg(s), n, k).meaning(consts, vm);
    assert(after.z =~= before.z.insert(d, after.z[d]));
}

/// A shuffle within blocks under a mask.
pub proof fn lemma_vpshufd(
    p: Prog,
    consts: Seq<Seq<u8>>,
    vm: Vm,
    d: u8,
    s: u8,
    imm: u8,
    k: u8,
)
    ensures
        ({
            let before = p.meaning(consts, vm);
            let after = p.vpshufd(d, Rm::Reg(s), imm, k).meaning(consts, vm);
            &&& put(before, after, d)
            &&& forall|i: int|
                0 <= i < 16 ==> #[trigger] after.z[d][i] == (if selects(before, k, i) {
                    before.z[s][4 * (i / 4) + field(imm, i % 4)]
                } else {
                    before.z[d][i]
                })
        }),
{
    broadcast use lemma_run;

    let before = p.meaning(consts, vm);
    let after = p.vpshufd(d, Rm::Reg(s), imm, k).meaning(consts, vm);
    assert(after.z =~= before.z.insert(d, after.z[d]));
}

/// A permute of the blocks under a mask.
pub proof fn lemma_vpermf32x4(
    p: Prog,
    consts: Seq<Seq<u8>>,
    vm: Vm,
    d: u8,
    s: u8,
    imm: u8,
    k: u8,
)
    ensures
        ({
            let before = p.meaning(consts, vm);
            let after = p.vpermf32x4(d, Rm::Reg(s), imm, k).meaning(consts, vm);
            &&& put(before, after, d)
            &&& forall|i: int|
                0 <= i < 16 ==> #[trigger] after.z[d][i] == (if selects(before, k, i) {
                    before.z[s][4 * field(imm, i / 4) + i % 4]
                } else {
                    before.z[d][i]
                })
        }),
{
    broadcast use lemma_run;

    let before = p.meaning(consts, vm);
    let after = p.vpermf32x4(d, Rm::Reg(s), imm, k).meaning(consts, vm);
    assert(after.z =~= before.z.insert(d, after.z[d]));
}

/// A lane-wise instruction, or a move, of dwords under a mask.
pub proof fn lemma_masked(p: Prog, consts: Seq<Seq<u8>>, vm: Vm, op: u8, d: u8, a: u8, b: u8, k: u8)
    requires
        lane_op(op, 0, 0) is Some,
    ensures
        ({
            let before = p.meaning(consts, vm);
            let after = p.i0f(op, d, a, Rm::Reg(b), k, 0).meaning(consts, vm);
            &&& put(before, after, d)
            &&& forall|i: int|
                0 <= i < 16 ==> #[trigger] after.z[d][i] == (if selects(before, k, i) {
                    lane_op(op, before.z[a][i], before.z[b][i])->0
                } else {
                    before.z[d][i]
                })
        }),
        ({
            let before = p.meaning(consts, vm);
            let after = p.vmov(d, Rm::Reg(b), k, 0).meaning(consts, vm);
            &&& put(before, after, d)
            &&& forall|i: int|
                0 <= i < 16 ==> #[trigger] after.z[d][i] == (if selects(before, k, i) {
                    before.z[b][i]
                } else {
                    before.z[d][i]
                })
        }),
{
    broadcast use lemma_run;

    let before = p.meaning(consts, vm);
    let after = p.i0f(op, d, a, Rm::Reg(b), k, 0).meaning(consts, vm);
    assert(after.z =~= before.z.insert(d, after.z[d]));
    let moved = p.vmov(d, Rm::Reg(b), k, 0).meaning(consts, vm);
    assert(moved.z =~= before.z.insert(d, moved.z[d]));
}

/// The two halves of an unsigned product.
pub proof fn lemma_i38(p: Prog, consts: Seq<Seq<u8>>, vm: Vm, op: u8, d: u8, a: u8, b: u8)
    requires
        op == 0x40 || op == 0x86,
    ensures
        ({
            let before = p.meaning(consts, vm);
            let after = p.i38(op, d, a, Rm::Reg(b), 0).meaning(consts, vm);
            &&& put(before, after, d)
            &&& forall|i: int|
                0 <= i < 16 ==> #[trigger] after.z[d][i] == (if op == 0x40 {
                    ((before.z[a][i] * before.z[b][i]) % 0x1_0000_0000) as u32
                } else {
                    ((before.z[a][i] * before.z[b][i]) / 0x1_0000_0000) as u32
                })
        }),
{
    broadcast use lemma_run;

    let before = p.meaning(consts, vm);
    let after = p.i38(op, d, a, Rm::Reg(b), 0).meaning(consts, vm);
    assert(after.z =~= before.z.insert(d, after.z[d]));
}

/// The lanes from a number on of two vectors, the second source first.
pub proof fn lemma_valignd(p: Prog, consts: Seq<Seq<u8>>, vm: Vm, d: u8, a: u8, b: u8, n: u8)
    requires
        n < 16,
    ensures
        ({
            let before = p.meaning(consts, vm);
            let after = p.valignd(d, a, Rm::Reg(b), n, 0).meaning(consts, vm);
            &&& put(before, after, d)
            &&& forall|i: int|
                0 <= i < 16 ==> #[trigger] after.z[d][i] == (if i + n < 16 {
                    before.z[b][i + n]
                } else {
                    before.z[a][i + n - 16]
                })
        }),
{
    broadcast use lemma_run;

    let before = p.meaning(consts, vm);
    let after = p.valignd(d, a, Rm::Reg(b), n, 0).meaning(consts, vm);
    assert(after.z =~= before.z.insert(d, after.z[d]));
}

/// The card's vpermd, unmasked, takes the dwords that the lanes name.
pub proof fn lemma_vpermd(p: Prog, consts: Seq<Seq<u8>>, vm: Vm, d: u8, a: u8, b: u8)
    ensures
        ({
            let before = p.meaning(consts, vm);
            let after = p.vpermd(d, a, Rm::Reg(b), 0).meaning(consts, vm);
            after == (Vm { z: before.z.insert(d, picked(before.z[a], before.z[b])), ..before })
        }),
{
    broadcast use lemma_run;

    let before = p.meaning(consts, vm);
    let after = p.vpermd(d, a, Rm::Reg(b), 0).meaning(consts, vm);
    assert(after.z[d] =~= picked(before.z[a], before.z[b]));
}

} // verus!
