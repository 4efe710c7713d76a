//! The mask instructions, and the compares the card needs several
//! instructions for.
use crate::xlate::code;
use crate::xlate::code::{MemOp, Rewrite, Rm, Unsupported};
use crate::xlate::em::Em;
use crate::xlate::ev;
use crate::xlate::ev::{Ev, Outcome};
use crate::xlate::insn;
use crate::xlate::insn::Decoded;
use crate::xlate::mnemonic as mn;
use crate::xlate::prog;
use crate::xlate::prog::{Prog, Step};
use vstd::prelude::*;

verus! {

/// How one of AVX-512's predicates is expressed with the card's eight.
pub enum Predicate {
    /// Never true.
    False,
    /// Always true.
    True,
    /// The card's predicate, with the operands swapped or not, and a second
    /// one joined to it.
    Card(u8, bool, Option<(u8, bool)>),
}

/// The card's form of predicate `pred`, from 8 to 31.
pub open spec fn predicate(pred: u8) -> Predicate {
    let p = pred % 16;
    if pred >= 16 && pred < 24 {
        Predicate::Card((pred - 16) as u8, false, None)
    } else if p == 8 {
        Predicate::Card(0, false, Some((3, false)))
    } else if p == 9 {
        Predicate::Card(6, true, None)
    } else if p == 10 {
        Predicate::Card(5, true, None)
    } else if p == 11 {
        Predicate::False
    } else if p == 12 {
        Predicate::Card(1, false, Some((1, true)))
    } else if p == 13 {
        Predicate::Card(2, true, None)
    } else if p == 14 {
        Predicate::Card(1, true, None)
    } else {
        Predicate::True
    }
}

fn predicate_of(pred: u8) -> (p: Predicate)
    requires
        8 <= pred < 32,
    ensures
        p == predicate(pred),
{
    match pred {
        8 | 24 => Predicate::Card(0, false, Some((3, false))),  // EQ_UQ, EQ_US: eq | unord
        9 | 25 => Predicate::Card(6, true, None),  // NGE: not(s1 >= s2) = nle(s2, s1)
        10 | 26 => Predicate::Card(5, true, None),  // NGT: nlt(s2, s1)
        11 | 27 => Predicate::False,
        12 | 28 => Predicate::Card(1, false, Some((1, true))),  // NEQ_O: lt | gt
        13 | 29 => Predicate::Card(2, true, None),  // GE_O: le(s2, s1)
        14 | 30 => Predicate::Card(1, true, None),  // GT_O: lt(s2, s1)
        15 | 31 => Predicate::True,
        _ => Predicate::Card(pred - 16, false, None),
    }
}

impl Prog {
    /// The mask `k` set to a constant, through eax.
    pub open spec fn mask_to(self, k: u8, bits: u32) -> Prog {
        self.mov_eax(bits).vexk(0x92, k, 0)
    }

    /// The mask `kd` set in every lane the compare looks at.
    pub open spec fn all_true(self, kd: u8, keff: u8, ev: Ev) -> Prog {
        if ev.ll == 2 && ev.aaa == 0 {
            self.mask_to(kd, ev::vl_lanes(2, ev.w) as u32)
        } else if ev.ll == 2 && ev.w == 1 {
            self.masked_lanes(ev::vl_lanes(2, 1), ev.aaa).vexk(0x90, kd, self.kscr)
        } else {
            self.vexk(0x90, kd, keff)
        }
    }

    /// The write mask in the scratch mask, where it is the destination of two
    /// compares, the first of which would change it.
    pub open spec fn kept_mask(self, ev: Ev, two: bool) -> Prog {
        if clashes(ev, two) {
            self.step(Step::K).vexk(0x90, self.kscr, ev.aaa)
        } else {
            self
        }
    }

    /// A compare, its operands swapped or not.
    pub open spec fn compare_either(
        self,
        kd: u8,
        s1: u8,
        s2: u8,
        pred: u8,
        swap: bool,
        k: u8,
        w: u8,
    ) -> Prog {
        if swap {
            self.compare(kd, s2, Rm::Reg(s1), pred, k, w)
        } else {
            self.compare(kd, s1, Rm::Reg(s2), pred, k, w)
        }
    }

    /// The second compare of a predicate into another mask, kept in rcx,
    /// and joined to the first.
    pub open spec fn joined(
        self,
        kd: u8,
        s1: u8,
        s2: u8,
        second: (u8, bool),
        keff: u8,
        ev: Ev,
    ) -> Prog {
        let k2 = prog::free_mask(seq![kd, self.kscr, ev.aaa], 7);
        self
            .step(Step::Rcx)
            .vexk(0x93, 1, k2)
            .compare_either(k2, s1, s2, second.0, second.1, keff, ev.w)
            .vexk(0x45, kd, k2)
            .vexk(0x92, k2, 1)
    }
}

/// Whether the first of two compares would change the mask that the second
/// runs under.
#[verifier::allow_in_spec]
pub fn clashes(ev: Ev, two: bool) -> bool
    returns
        two && ev.ll == 2 && ev.aaa != 0 && ev.reg & 7 == ev.aaa,
{
    two && ev.ll == 2 && ev.aaa != 0 && ev.reg & 7 == ev.aaa
}

/// What a compare with a predicate the card lacks becomes.
pub open spec fn compare_outcome(insn: Decoded, ev: Ev, scratch: i32) -> Outcome {
    let kd = ev.reg & 7;
    let s1 = ev.vvvv;
    let full = ev.ll == 2;
    let unmasked = full && ev.aaa == 0;
    let p = Prog::start(scratch, insn);
    let keff = if full { ev.aaa } else { p.kscr };
    let lanes = ev::vl_lanes(ev.ll, ev.w);
    let pred = insn.head.imm8;
    Outcome::Thunk(
        if ev.map == 3 {
            let p = if full { p } else { p.masked_lanes(lanes, ev.aaa) };
            if pred & 7 == 3 {
                p.mask_to(kd, 0)
            } else {
                p.all_true(kd, keff, ev)
            }
        } else {
            let s2 = p.src2_reg(insn, ev);
            let p = p.src2(insn, ev);
            let p = if full { p } else { p.masked_lanes(lanes, ev.aaa) };
            match predicate(pred) {
                Predicate::False => p.mask_to(kd, 0),
                Predicate::True => p.all_true(kd, keff, ev),
                Predicate::Card(q, swap, second) => {
                    let keff = if clashes(ev, second is Some) { p.kscr } else { keff };
                    let p = p.kept_mask(ev, second is Some);
                    let p = p.compare_either(kd, s1, s2, q, swap, keff, ev.w);
                    let p = match second {
                        Some(t) => p.joined(kd, s1, s2, t, keff, ev),
                        None => p,
                    };
                    if unmasked { p } else { p.vexk(0x41, kd, keff) }
                },
            }
        },
    )
}

impl Em {
    fn mask_to(&mut self, k: u8, bits: u32)
        requires
            old(self).wf(),
        ensures
            final(self).wf(),
            final(self)@ == old(self)@.mask_to(k, bits),
    {
        self.mov_eax(bits);
        self.kmov_k_r(k, 0);
    }

    fn all_true(&mut self, kd: u8, keff: u8, ev: &Ev)
        requires
            old(self).wf(),
        ensures
            final(self).wf(),
            final(self)@ == old(self)@.all_true(kd, keff, *ev),
    {
        if ev.ll == 2 && ev.aaa == 0 {
            self.mask_to(kd, ev::vl_lanes(2, ev.w) as u32);
        } else if ev.ll == 2 && ev.w == 1 {
            let ks: u8 = self.masked_lanes(ev::vl_lanes(2, 1), ev.aaa);
            self.kmov_kk(kd, ks);
        } else {
            self.kmov_kk(kd, keff);
        }
    }

    fn kept_mask(&mut self, ev: &Ev, two: bool)
        requires
            old(self).wf(),
        ensures
            final(self).wf(),
            final(self)@ == old(self)@.kept_mask(*ev, two),
    {
        if clashes(*ev, two) {
            let ks: u8 = self.k();
            self.kmov_kk(ks, ev.aaa);
        }
    }

    fn compare_either(&mut self, kd: u8, s1: u8, s2: u8, pred: u8, swap: bool, k: u8, w: u8)
        requires
            old(self).wf(),
        ensures
            final(self).wf(),
            final(self)@ == old(self)@.compare_either(kd, s1, s2, pred, swap, k, w),
    {
        if swap {
            self.compare(kd, s2, Rm::Reg(s1), pred, k, w);
        } else {
            self.compare(kd, s1, Rm::Reg(s2), pred, k, w);
        }
    }

    /// The second compare into a temporary mask, joined by kor. The scratch
    /// mask holds the effective mask when narrow or masked, so another one
    /// is needed.
    fn joined(&mut self, kd: u8, s1: u8, s2: u8, second: (u8, bool), keff: u8, ev: &Ev)
        requires
            old(self).wf(),
        ensures
            final(self).wf(),
            final(self)@ == old(self)@.joined(kd, s1, s2, second, keff, *ev),
    {
        let kscr: u8 = self.scratch_mask();
        let ghost held = seq![kd, kscr, ev.aaa];
        let mut k: u8 = 7;
        while k > 0 && (k == kd || k == kscr || k == ev.aaa)
            invariant
                k <= 7,
                held == seq![kd, kscr, ev.aaa],
                prog::free_mask(held, 7) == prog::free_mask(held, k as int),
            decreases k,
        {
            assert(held[0] == kd && held[1] == kscr && held[2] == ev.aaa);
            assert(held.contains(k));
            k = k - 1;
        }
        let k2: u8 = if k > 0 {
            assert(!held.contains(k));
            k
        } else {
            7
        };
        self.rcx();
        self.kmov_r_k(1, k2);
        self.compare_either(k2, s1, s2, second.0, second.1, keff, ev.w);
        self.kor(kd, k2);
        self.kmov_k_r(k2, 1);
    }
}

/// A float compare with a predicate above 7, and an integer one with
/// FALSE or TRUE: the card's eight predicates, operands swapped or two
/// compares joined, where AVX-512 has thirty-two.
pub fn compare(insn: &Decoded, ev: &Ev, scratch: i32) -> (res: Result<Rewrite, Unsupported>)
    requires
        insn.operable(),
        ev.map == 3 || 8 <= insn.head.imm8 < 32,
    ensures
        compare_outcome(*insn, *ev, scratch).is(*insn, res),
{
    let mut em = Em::new(scratch, insn);
    let kd: u8 = ev.reg & 7;
    let s1: u8 = ev.vvvv;
    let full = ev.ll == 2;
    let unmasked = full && ev.aaa == 0;
    let lanes: u16 = ev::vl_lanes(ev.ll, ev.w);
    let pred: u8 = insn.head.imm8;
    if ev.map == 3 {
        // FALSE (3) or TRUE (7)
        let keff: u8 = if full { ev.aaa } else { em.masked_lanes(lanes, ev.aaa) };
        if pred & 7 == 3 {
            em.mask_to(kd, 0);
        } else {
            em.all_true(kd, keff, ev);
        }
        return Ok(Rewrite::Thunk(em.finish()));
    }
    // The memory operand first: reading it takes the scratch mask too.
    let s2: u8 = ev::src2(&mut em, insn, ev);
    let keff: u8 = if full { ev.aaa } else { em.masked_lanes(lanes, ev.aaa) };
    match predicate_of(pred) {
        Predicate::False => em.mask_to(kd, 0),
        Predicate::True => em.all_true(kd, keff, ev),
        Predicate::Card(p, swap, second) => {
            let two = second.is_some();
            let keff: u8 = if clashes(*ev, two) { em.scratch_mask() } else { keff };
            em.kept_mask(ev, two);
            em.compare_either(kd, s1, s2, p, swap, keff, ev.w);
            if let Some(t) = second {
                em.joined(kd, s1, s2, t, keff, ev);
            }
            if !unmasked {
                em.kand(kd, keff);
            }
        },
    }
    Ok(Rewrite::Thunk(em.finish()))
}

/// What a mask instruction does.
#[derive(Clone, Copy, Debug, PartialEq, Eq, Structural)]
pub enum MaskOp {
    Move,
    /// Three operands, by the card's opcode.
    Three(u8),
    Not,
    OrTest,
    Unpack,
    Shift { left: bool },
    /// Not a mask instruction the card has.
    Other,
}

/// What the mask instruction `m` does.
#[verifier::allow_in_spec]
pub fn mask_op(m: u16) -> MaskOp
    returns
        (if m == mn::KMOVW || m == mn::KMOVD || m == mn::KMOVQ || m == mn::KMOVB {
            MaskOp::Move
        } else if m == mn::KANDW || m == mn::KANDD || m == mn::KANDQ || m == mn::KANDB {
            MaskOp::Three(0x41)
        } else if m == mn::KANDNW || m == mn::KANDND || m == mn::KANDNQ || m == mn::KANDNB {
            MaskOp::Three(0x42)
        } else if m == mn::KORW || m == mn::KORD || m == mn::KORQ || m == mn::KORB {
            MaskOp::Three(0x45)
        } else if m == mn::KXNORW || m == mn::KXNORD || m == mn::KXNORQ || m == mn::KXNORB {
            MaskOp::Three(0x46)
        } else if m == mn::KXORW || m == mn::KXORD || m == mn::KXORQ || m == mn::KXORB {
            MaskOp::Three(0x47)
        } else if m == mn::KNOTW || m == mn::KNOTD || m == mn::KNOTQ || m == mn::KNOTB {
            MaskOp::Not
        } else if m == mn::KORTESTW || m == mn::KORTESTD || m == mn::KORTESTQ || m == mn::KORTESTB {
            MaskOp::OrTest
        } else if m == mn::KUNPCKBW {
            MaskOp::Unpack
        } else if m == mn::KSHIFTLW || m == mn::KSHIFTLB || m == mn::KSHIFTLD || m == mn::KSHIFTLQ {
            MaskOp::Shift { left: true }
        } else if m == mn::KSHIFTRW || m == mn::KSHIFTRB || m == mn::KSHIFTRD || m == mn::KSHIFTRQ {
            MaskOp::Shift { left: false }
        } else {
            MaskOp::Other
        }),
{
    if m == mn::KMOVW || m == mn::KMOVD || m == mn::KMOVQ || m == mn::KMOVB {
        MaskOp::Move
    } else if m == mn::KANDW || m == mn::KANDD || m == mn::KANDQ || m == mn::KANDB {
        MaskOp::Three(0x41)
    } else if m == mn::KANDNW || m == mn::KANDND || m == mn::KANDNQ || m == mn::KANDNB {
        MaskOp::Three(0x42)
    } else if m == mn::KORW || m == mn::KORD || m == mn::KORQ || m == mn::KORB {
        MaskOp::Three(0x45)
    } else if m == mn::KXNORW || m == mn::KXNORD || m == mn::KXNORQ || m == mn::KXNORB {
        MaskOp::Three(0x46)
    } else if m == mn::KXORW || m == mn::KXORD || m == mn::KXORQ || m == mn::KXORB {
        MaskOp::Three(0x47)
    } else if m == mn::KNOTW || m == mn::KNOTD || m == mn::KNOTQ || m == mn::KNOTB {
        MaskOp::Not
    } else if m == mn::KORTESTW || m == mn::KORTESTD || m == mn::KORTESTQ || m == mn::KORTESTB {
        MaskOp::OrTest
    } else if m == mn::KUNPCKBW {
        MaskOp::Unpack
    } else if m == mn::KSHIFTLW || m == mn::KSHIFTLB || m == mn::KSHIFTLD || m == mn::KSHIFTLQ {
        MaskOp::Shift { left: true }
    } else if m == mn::KSHIFTRW || m == mn::KSHIFTRB || m == mn::KSHIFTRD || m == mn::KSHIFTRQ {
        MaskOp::Shift { left: false }
    } else {
        MaskOp::Other
    }
}

/// Whether the mask instruction `m` works on eight bits.
#[verifier::allow_in_spec]
pub fn is_byte_mask(m: u16) -> bool
    returns
        m == mn::KMOVB || m == mn::KANDB || m == mn::KANDNB || m == mn::KORB || m == mn::KXNORB || m
            == mn::KXORB || m == mn::KNOTB || m == mn::KORTESTB || m == mn::KSHIFTLB || m
            == mn::KSHIFTRB,
{
    m == mn::KMOVB || m == mn::KANDB || m == mn::KANDNB || m == mn::KORB || m == mn::KXNORB || m
        == mn::KXORB || m == mn::KNOTB || m == mn::KORTESTB || m == mn::KSHIFTLB || m
        == mn::KSHIFTRB
}

/// Whether the VEX.L bit of the instruction in `bytes` is set.
pub open spec fn vex_l1(bytes: Seq<u8>) -> bool {
    ||| bytes.len() >= 3 && bytes[0] == 0xc5 && (bytes[1] >> 2) & 1 == 1
    ||| bytes.len() >= 4 && bytes[0] == 0xc4 && (bytes[2] >> 2) & 1 == 1
}

/// Whether the card reads the bytes of the instruction as AVX-512 does:
/// kmovw between mask and general registers, knotw and kortestw, all with
/// VEX.L clear. They are too short for a jump.
pub open spec fn same_on_card(insn: Decoded, bytes: Seq<u8>) -> bool {
    let m = insn.head.mnemonic;
    &&& !vex_l1(bytes)
    &&& m == mn::KMOVW || m == mn::KNOTW || m == mn::KORTESTW
    &&& insn.kind(0) == insn::KIND_REGISTER
    &&& insn.kind(1) == insn::KIND_REGISTER
}

impl Decoded {
    /// The mask register of operand `i`.
    pub open spec fn k(&self, i: int) -> Option<u8> {
        insn::kreg_of(self.reg(i))
    }

    /// Whether the operands of a mask instruction are the mask registers it
    /// takes, and the bytes at hand are all of it. Nothing is asked of an
    /// instruction that is none.
    pub open spec fn mask_operable(&self, bytes: Seq<u8>) -> bool {
        mask_op(self.head.mnemonic) != MaskOp::Other ==> {
            &&& self.operable()
            &&& 2 <= bytes.len()
            &&& self.head.len <= bytes.len()
            &&& match mask_op(self.head.mnemonic) {
                MaskOp::Move => {
                    &&& self.kind(0) == insn::KIND_REGISTER && self.kind(1) == insn::KIND_MEMORY
                        ==> self.k(0) is Some
                    &&& self.kind(0) == insn::KIND_MEMORY && self.kind(1) == insn::KIND_REGISTER
                        ==> self.k(1) is Some
                },
                MaskOp::Three(_) => self.k(0) is Some && self.k(1) is Some && self.k(2) is Some,
                MaskOp::Unpack => self.k(0) is Some && self.k(1) is Some && self.k(2) is Some,
                MaskOp::Not => self.k(0) is Some && self.k(1) is Some,
                MaskOp::OrTest => self.k(0) is Some && self.k(1) is Some,
                MaskOp::Shift { left: _ } => self.k(0) is Some && self.k(1) is Some,
                MaskOp::Other => true,
            }
        }
    }
}

impl Prog {
    /// k1 = k2 op k3 on the card's k1 = k1 op k2.
    pub open spec fn three(self, op: u8, k1: u8, k2: u8, k3: u8) -> Prog {
        let commutes = op == 0x41 || op == 0x45 || op == 0x47 || op == 0x46;
        if k1 == k2 {
            self.vexk(op, k1, k3)
        } else if k1 == k3 && commutes {
            self.vexk(op, k1, k2)
        } else if k1 != k3 {
            self.vexk(0x90, k1, k2).vexk(op, k1, k3)
        } else {
            self
                .step(Step::K)
                .vexk(0x90, self.kscr, k2)
                .vexk(op, self.kscr, k3)
                .vexk(0x90, k1, self.kscr)
        }
    }

    /// k1 = (k2[7:0] << 8) | k3[7:0]: `movzx eax, al; movzx ecx, cl; shl
    /// ecx, 8; or eax, ecx` between the moves.
    pub open spec fn unpack(self, k1: u8, k2: u8, k3: u8) -> Prog {
        self
            .step(Step::Flags)
            .step(Step::Rcx)
            .vexk(0x93, 0, k3)
            .vexk(0x93, 1, k2)
            .raw(seq![0x0f, 0xb6, 0xc0])
            .raw(seq![0x0f, 0xb6, 0xc9])
            .raw(seq![0xc1, 0xe1, 0x08])
            .raw(seq![0x09, 0xc8])
            .vexk(0x92, k1, 0)
    }

    /// k1 = k2 shifted by `n` within its 16 bits, or its 8: `shl` or `shr
    /// eax, n`, `movzx eax, ax` (or `al`) after a left shift, `xor eax, eax`
    /// where nothing is left. Before a right shift of eight bits, `movzx eax,
    /// al`.
    pub open spec fn shift(self, k1: u8, k2: u8, n: u8, left: bool, byte: bool) -> Prog {
        let p = self.step(Step::Flags).vexk(0x93, 0, k2);
        let p = if n >= 16 || (byte && n >= 8) {
            p.raw(seq![0x31, 0xc0])
        } else if left {
            p.raw(seq![0xc1, 0xe0, n]).raw(seq![0x0f, if byte { 0xb6u8 } else { 0xb7 }, 0xc0])
        } else if byte {
            p.raw(seq![0x0f, 0xb6, 0xc0]).raw(seq![0xc1, 0xe8, n])
        } else {
            p.raw(seq![0xc1, 0xe8, n])
        };
        p.vexk(0x92, k1, 0)
    }

    /// The mask `k` cut to its low eight bits, where the instruction works on
    /// those alone.
    pub open spec fn cut(self, k: u8, byte: bool) -> Prog {
        if byte {
            self.mask_imm(0xff).vexk(0x41, k, self.kscr)
        } else {
            self
        }
    }
}

/// The opcode by which a mask in eax goes to memory: a byte, a word, or a
/// dword or qword whose upper bits are zero.
pub open spec fn mask_store(m: u16) -> Seq<u8> {
    if m == mn::KMOVB {
        seq![0x88]
    } else if m == mn::KMOVD {
        seq![0x89]
    } else if m == mn::KMOVQ {
        seq![0x48, 0x89]
    } else {
        seq![0x66, 0x89]
    }
}

/// What a move of a mask becomes.
pub open spec fn kmov_outcome(insn: Decoded, p: Prog) -> Outcome {
    let m8 = is_byte_mask(insn.head.mnemonic);
    if insn.kind(0) == insn::KIND_REGISTER && insn.kind(1) == insn::KIND_REGISTER {
        match (insn.k(0), insn.k(1)) {
            (Some(a), Some(b)) => Outcome::Thunk(p.vexk(0x90, a, b).cut(a, m8)),
            (Some(a), None) => match insn::gpr_of(insn.reg(1)) {
                Some(g) => Outcome::Thunk(p.vexk(0x92, a, g.0).cut(a, m8)),
                None => Outcome::Refused("kmov source"@),
            },
            (None, Some(b)) => match insn::gpr_of(insn.reg(0)) {
                Some(g) => if m8 {
                    Outcome::Refused("kmovb to a general register: not expressed yet"@)
                } else {
                    Outcome::Thunk(p.vexk(0x93, g.0, b))
                },
                None => Outcome::Refused("kmov destination"@),
            },
            (None, None) => Outcome::Refused("kmov between general registers"@),
        }
    } else if (insn.kind(0) == insn::KIND_REGISTER && insn.kind(1) == insn::KIND_MEMORY) || (
    insn.kind(0) == insn::KIND_MEMORY && insn.kind(1) == insn::KIND_REGISTER) {
        let m = MemOp::spec_of(insn)->0;
        if m.needs_rex() {
            Outcome::Refused("a memory operand addressed through r8 to r15: not expressed yet"@)
        } else if insn.kind(0) == insn::KIND_MEMORY && m.spec_uses(0) {
            Outcome::Refused("a mask stored through rax: not expressed yet"@)
        } else if insn.kind(0) == insn::KIND_REGISTER {
            Outcome::Thunk(
                p
                    .step(Step::Rax)
                    .legacy(seq![0x0f, if m8 { 0xb6u8 } else { 0xb7 }], m)
                    .vexk(0x92, insn.k(0)->0, 0),
            )
        } else {
            Outcome::Thunk(
                p
                    .step(Step::Rax)
                    .vexk(0x93, 0, insn.k(1)->0)
                    .legacy(mask_store(insn.head.mnemonic), m),
            )
        }
    } else {
        Outcome::Refused("kmov operand shape"@)
    }
}

/// What a mask instruction becomes.
pub open spec fn kops_outcome(insn: Decoded, bytes: Seq<u8>, scratch: i32) -> Outcome {
    let p = Prog::start(scratch, insn);
    let m8 = is_byte_mask(insn.head.mnemonic);
    if same_on_card(insn, bytes) {
        Outcome::InPlace(bytes.take(insn.head.len as int))
    } else {
        match mask_op(insn.head.mnemonic) {
            MaskOp::Move => kmov_outcome(insn, p),
            MaskOp::Three(op) => Outcome::Thunk(
                p.three(op, insn.k(0)->0, insn.k(1)->0, insn.k(2)->0).cut(insn.k(0)->0, m8),
            ),
            MaskOp::Not => Outcome::Thunk(
                p.vexk(0x44, insn.k(0)->0, insn.k(1)->0).cut(insn.k(0)->0, m8),
            ),
            MaskOp::OrTest => if m8 {
                Outcome::Refused("kortestb: the card tests sixteen bits"@)
            } else if !vex_l1(bytes) && bytes[0] == 0xc5 && bytes[1] == 0xf8 {
                Outcome::InPlace(bytes.take(insn.head.len as int))
            } else {
                Outcome::Thunk(p.vexk(0x98, insn.k(0)->0, insn.k(1)->0))
            },
            MaskOp::Unpack => Outcome::Thunk(
                p.unpack(insn.k(0)->0, insn.k(1)->0, insn.k(2)->0),
            ),
            MaskOp::Shift { left } => Outcome::Thunk(
                p.shift(insn.k(0)->0, insn.k(1)->0, insn.head.imm8, left, m8),
            ),
            MaskOp::Other => Outcome::Refused("a VEX instruction the card does not have"@),
        }
    }
}

/// Three raw bytes.
fn raw3(em: &mut Em, a: u8, b: u8, c: u8)
    requires
        old(em).wf(),
    ensures
        final(em).wf(),
        final(em)@ == old(em)@.raw(seq![a, b, c]),
{
    let v: [u8; 3] = [a, b, c];
    assert(v@ =~= seq![a, b, c]);
    em.raw(&v);
}

/// Two raw bytes.
fn raw2(em: &mut Em, a: u8, b: u8)
    requires
        old(em).wf(),
    ensures
        final(em).wf(),
        final(em)@ == old(em)@.raw(seq![a, b]),
{
    let v: [u8; 2] = [a, b];
    assert(v@ =~= seq![a, b]);
    em.raw(&v);
}

/// A one-byte opcode with a memory operand.
fn legacy1(em: &mut Em, a: u8, m: MemOp)
    requires
        old(em).wf(),
    ensures
        final(em).wf(),
        final(em)@ == old(em)@.legacy(seq![a], m),
{
    let v: [u8; 1] = [a];
    assert(v@ =~= seq![a]);
    em.legacy(&v, m);
}

/// A two-byte opcode with a memory operand.
fn legacy2(em: &mut Em, a: u8, b: u8, m: MemOp)
    requires
        old(em).wf(),
    ensures
        final(em).wf(),
        final(em)@ == old(em)@.legacy(seq![a, b], m),
{
    let v: [u8; 2] = [a, b];
    assert(v@ =~= seq![a, b]);
    em.legacy(&v, m);
}

impl Em {
    fn three(&mut self, op: u8, k1: u8, k2: u8, k3: u8)
        requires
            old(self).wf(),
        ensures
            final(self).wf(),
            final(self)@ == old(self)@.three(op, k1, k2, k3),
    {
        if k1 == k2 {
            self.vexk(op, k1, k3);
        } else if k1 == k3 && (op == 0x41 || op == 0x45 || op == 0x47 || op == 0x46) {
            self.vexk(op, k1, k2);  // commutative
        } else if k1 != k3 {
            self.kmov_kk(k1, k2);
            self.vexk(op, k1, k3);
        } else {
            // k1 = k2 op k1 with a non-commutative op: through the scratch mask
            let ks: u8 = self.k();
            self.kmov_kk(ks, k2);
            self.vexk(op, ks, k3);
            self.kmov_kk(k1, ks);
        }
    }

    fn unpack(&mut self, k1: u8, k2: u8, k3: u8)
        requires
            old(self).wf(),
        ensures
            final(self).wf(),
            final(self)@ == old(self)@.unpack(k1, k2, k3),
    {
        self.flags();
        self.rcx();
        self.kmov_r_k(0, k3);
        self.kmov_r_k(1, k2);
        raw3(self, 0x0f, 0xb6, 0xc0);  // movzx eax, al
        raw3(self, 0x0f, 0xb6, 0xc9);  // movzx ecx, cl
        raw3(self, 0xc1, 0xe1, 0x08);  // shl ecx, 8
        raw2(self, 0x09, 0xc8);  // or eax, ecx
        self.kmov_k_r(k1, 0);
    }

    fn cut(&mut self, k: u8, byte: bool)
        requires
            old(self).wf(),
        ensures
            final(self).wf(),
            final(self)@ == old(self)@.cut(k, byte),
    {
        if byte {
            let ks: u8 = self.mask_imm(0xff);
            self.kand(k, ks);
        }
    }

    fn shift(&mut self, k1: u8, k2: u8, n: u8, left: bool, byte: bool)
        requires
            old(self).wf(),
        ensures
            final(self).wf(),
            final(self)@ == old(self)@.shift(k1, k2, n, left, byte),
    {
        self.flags();
        self.kmov_r_k(0, k2);
        if n >= 16 || (byte && n >= 8) {
            raw2(self, 0x31, 0xc0);  // xor eax, eax
        } else if left {
            raw3(self, 0xc1, 0xe0, n);  // shl eax, n
            raw3(self, 0x0f, if byte { 0xb6 } else { 0xb7 }, 0xc0);  // movzx eax, al or ax
        } else if byte {
            raw3(self, 0x0f, 0xb6, 0xc0);  // movzx eax, al
            raw3(self, 0xc1, 0xe8, n);  // shr eax, n
        } else {
            raw3(self, 0xc1, 0xe8, n);  // shr eax, n
        }
        self.kmov_k_r(k1, 0);
    }
}

fn kmov(insn: &Decoded, em: Em) -> (res: Result<Rewrite, Unsupported>)
    requires
        em.wf(),
        insn.operable(),
        insn.kind(0) == insn::KIND_REGISTER && insn.kind(1) == insn::KIND_MEMORY ==> insn.k(
            0,
        ) is Some,
        insn.kind(0) == insn::KIND_MEMORY && insn.kind(1) == insn::KIND_REGISTER ==> insn.k(
            1,
        ) is Some,
    ensures
        kmov_outcome(*insn, em@).is(*insn, res),
{
    let mut em = em;
    let kind0: u8 = insn.op_kind(0);
    let kind1: u8 = insn.op_kind(1);
    let r0: u8 = insn.op_register(0);
    let r1: u8 = insn.op_register(1);
    let mnemonic: u16 = insn.head.mnemonic;
    let m8 = is_byte_mask(mnemonic);
    if kind0 == insn::KIND_REGISTER && kind1 == insn::KIND_REGISTER {
        match (insn::kreg(r0), insn::kreg(r1)) {
            (Some(a), Some(b)) => {
                em.kmov_kk(a, b);
                em.cut(a, m8);
            },
            (Some(a), None) => match insn::gpr(r1) {
                Some((r, _)) => {
                    em.kmov_k_r(a, r);
                    em.cut(a, m8);
                },
                None => {
                    return Err(code::refuse(insn, "kmov source"));
                },
            },
            (None, Some(b)) => match insn::gpr(r0) {
                Some((r, _)) => {
                    if m8 {
                        return Err(
                            code::refuse(insn, "kmovb to a general register: not expressed yet"),
                        );
                    }
                    em.kmov_r_k(r, b);
                },
                None => {
                    return Err(code::refuse(insn, "kmov destination"));
                },
            },
            (None, None) => {
                return Err(code::refuse(insn, "kmov between general registers"));
            },
        }
        return Ok(Rewrite::Thunk(em.finish()));
    }
    let from_mem = kind0 == insn::KIND_REGISTER && kind1 == insn::KIND_MEMORY;
    let to_mem = kind0 == insn::KIND_MEMORY && kind1 == insn::KIND_REGISTER;
    if !from_mem && !to_mem {
        return Err(code::refuse(insn, "kmov operand shape"));
    }
    proof {
        assert(insn.kind(if from_mem { 1int } else { 0int }) == insn::KIND_MEMORY);
    }
    let k = if from_mem { insn::kreg(r0) } else { insn::kreg(r1) };
    if let (Some(m), Some(k)) = (MemOp::of(insn), k) {
        if m.needs_rex() {
            return Err(
                code::refuse(
                    insn,
                    "a memory operand addressed through r8 to r15: not expressed yet",
                ),
            );
        }
        if to_mem && m.uses(0) {
            return Err(code::refuse(insn, "a mask stored through rax: not expressed yet"));
        }
        em.rax();
        if from_mem {
            // movzx eax, word [m]: 0F B7 /r; a byte: 0F B6 /r
            legacy2(&mut em, 0x0f, if m8 { 0xb6 } else { 0xb7 }, m);
            em.kmov_k_r(k, 0);
        } else {
            em.kmov_r_k(0, k);
            // mov word [m], ax: 66 89 /r; a byte 88 /r, a dword 89 /r, a qword 48 89 /r
            if mnemonic == mn::KMOVB {
                legacy1(&mut em, 0x88, m);
            } else if mnemonic == mn::KMOVD {
                legacy1(&mut em, 0x89, m);
            } else if mnemonic == mn::KMOVQ {
                legacy2(&mut em, 0x48, 0x89, m);
            } else {
                legacy2(&mut em, 0x66, 0x89, m);
            }
        }
    }
    Ok(Rewrite::Thunk(em.finish()))
}

/// The mask instructions AVX-512 encodes with VEX (kmovw, kandw, korw,
/// kxorw, kxnorw, kandnw, knotw, kortestw, kunpckbw, kshiftlw, kshiftrw,
/// the d/q widths for 16-bit values, and the b widths cut to eight bits): the
/// card's two-operand forms
/// (VEX.128.0F.W0 41 42 44 45 46 47 90 92 93 98 /r), through general
/// registers where it has none.
pub fn kops(insn: &Decoded, bytes: &[u8], scratch: i32) -> (res: Result<Rewrite, Unsupported>)
    requires
        insn.mask_operable(bytes@),
    ensures
        kops_outcome(*insn, bytes@, scratch).is(*insn, res),
{
    let m: u16 = insn.head.mnemonic;
    let op = mask_op(m);
    if op == MaskOp::Other {
        return Err(code::refuse(insn, "a VEX instruction the card does not have"));
    }
    let l1 = bytes.len() >= 3 && bytes[0] == 0xc5 && (bytes[1] >> 2) & 1 == 1 || bytes.len() >= 4
        && bytes[0] == 0xc4 && (bytes[2] >> 2) & 1 == 1;
    let as_is = !l1 && (m == mn::KMOVW || m == mn::KNOTW || m == mn::KORTESTW) && insn.op_kind(0)
        == insn::KIND_REGISTER && insn.op_kind(1) == insn::KIND_REGISTER;
    let m8 = is_byte_mask(m);
    let ortest_as_is = !m8 && op == MaskOp::OrTest && !l1 && bytes[0] == 0xc5 && bytes[1] == 0xf8;
    if as_is || ortest_as_is {
        let v: Vec<u8> = vstd::slice::slice_to_vec(
            vstd::slice::slice_subrange(bytes, 0, insn.head.len),
        );
        assert(v@ =~= bytes@.take(insn.head.len as int));
        return Ok(Rewrite::InPlace(v));
    }
    let mut em = Em::new(scratch, insn);
    let k0 = insn::kreg(insn.op_register(0));
    let k1 = insn::kreg(insn.op_register(1));
    let k2 = insn::kreg(insn.op_register(2));
    match op {
        MaskOp::Move => {
            return kmov(insn, em);
        },
        MaskOp::Three(o) => {
            if let (Some(a), Some(b), Some(c)) = (k0, k1, k2) {
                em.three(o, a, b, c);
                em.cut(a, m8);
            }
        },
        MaskOp::Not => {
            if let (Some(a), Some(b)) = (k0, k1) {
                em.knot(a, b);
                em.cut(a, m8);
            }
        },
        MaskOp::OrTest => {
            if m8 {
                return Err(code::refuse(insn, "kortestb: the card tests sixteen bits"));
            }
            if let (Some(a), Some(b)) = (k0, k1) {
                em.vexk(0x98, a, b);
            }
        },
        MaskOp::Unpack => {
            if let (Some(a), Some(b), Some(c)) = (k0, k1, k2) {
                em.unpack(a, b, c);
            }
        },
        MaskOp::Shift { left } => {
            if let (Some(a), Some(b)) = (k0, k1) {
                em.shift(a, b, insn.head.imm8, left, m8);
            }
        },
        MaskOp::Other => {},
    }
    Ok(Rewrite::Thunk(em.finish()))
}

} // verus!
