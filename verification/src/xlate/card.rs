//! More of the card than [`crate::xlate::meaning`] has: the flags that a mask
//! test sets, rax and rcx as qwords, the moves between rax and memory, and x87
//! as far as the scalar conversions use it. What x87 converts to is left to
//! the model's user ([`Fpu`]).
use crate::xlate::code::{MemOp, Mvex, Rm, S_CW, S_CW2, S_XFER};
use crate::xlate::lane_results;
use crate::xlate::meaning;
use crate::xlate::meaning::Vm;
use crate::xlate::prog::{Prog, Step};
use vstd::prelude::*;

verus! {

/// The top of the x87 stack.
pub enum Top {
    /// Nothing is held there.
    Empty,
    /// A signed qword, by its dwords.
    Integer(u32, u32),
    /// A float, or with 1 a double, by its dwords.
    Float(u8, u32, u32),
}

/// What a sequence uses of x87.
pub struct Fpu {
    /// The top of the stack.
    pub top: Top,
    /// The control word.
    pub cw: u16,
    /// The two control words kept in the scratch area.
    pub kept: (u16, u16),
    /// The float, or with 1 the double, that is stored of a signed qword under
    /// a control word.
    pub floated: spec_fn(u8, (u32, u32), u16) -> (u32, u32),
    /// The qword that is stored of a float, or with 1 of a double, under a
    /// control word.
    pub integral: spec_fn(u8, (u32, u32), u16) -> (u32, u32),
}

/// The registers a sequence works on.
pub struct Card {
    pub vm: Vm,
    /// The high dwords of rax and rcx, as far as they are known.
    pub high: (Option<u32>, Option<u32>),
    /// The zero and the carry flag.
    pub flags: (bool, bool),
    pub fpu: Fpu,
}

/// The register that a move to rax extends, and whether it extends the sign:
/// `movsxd rax, r32` or `mov eax, r32`.
pub open spec fn extending(b: Seq<u8>) -> Option<(u8, bool)> {
    if b.len() == 2 && b[0] == 0x8b && 0xc0 <= b[1] < 0xc8 {
        Some(((b[1] - 0xc0) as u8, false))
    } else if b.len() == 3 && b[0] == 0x41 && b[1] == 0x8b && 0xc0 <= b[2] < 0xc8 {
        Some(((b[2] - 0xb8) as u8, false))
    } else if b.len() == 3 && b[0] == 0x48 && b[1] == 0x63 && 0xc0 <= b[2] < 0xc8 {
        Some(((b[2] - 0xc0) as u8, true))
    } else if b.len() == 3 && b[0] == 0x49 && b[1] == 0x63 && 0xc0 <= b[2] < 0xc8 {
        Some(((b[2] - 0xb8) as u8, true))
    } else {
        None
    }
}

/// `or ah, 12`, by which a control word is made to truncate.
pub open spec fn or_ah() -> Seq<u8> {
    seq![0x80, 0xcc, 0x0c]
}

/// The dword above a dword that is extended to a qword.
pub open spec fn extension(x: u32, signed: bool) -> u32 {
    if signed && x >= 0x8000_0000 {
        0xffff_ffff
    } else {
        0
    }
}

/// A dword with the element of `bytes` bytes at the address `y` in it made
/// `x`.
pub open spec fn replaced(dword: u32, y: int, bytes: int, x: int) -> u32 {
    let unit = if y % 4 == 0 {
        1
    } else if y % 4 == 1 {
        0x100
    } else if y % 4 == 2 {
        0x1_0000
    } else {
        0x100_0000int
    };
    (dword as int + (x - meaning::part(dword, y, bytes)) * unit) as u32
}

/// An element broadcast: a dword, or two in turn.
pub open spec fn both(w: u8, low: u32, high: u32) -> Seq<u32> {
    Seq::new(
        16,
        |i: int|
            if w == 0 || i % 2 == 0 {
                low
            } else {
                high
            },
    )
}

/// A broadcast from the transfer slot.
pub open spec fn from_slot(m: Mvex) -> bool {
    m.rm == Rm::Fs(S_XFER) && m.map == 2 && m.pp == 1 && m.w <= 1 && m.op == 0x18 + m.w && m.sss
        == 0
}

/// vcvtps2pd under a mask, which selects the qwords it makes of dwords.
pub open spec fn widens(m: Mvex) -> bool {
    m.map == 1 && m.pp == 0 && m.w == 0 && m.op == 0x5A && m.k != 0
}

/// Whether [`Vm`] has the step.
pub open spec fn plain(s: Step) -> bool {
    match s {
        Step::FsOp { .. } => false,
        Step::Legacy { .. } => false,
        Step::Gpr { off, .. } => off != S_XFER,
        Step::Tail { off, .. } => off != S_XFER,
        Step::VexK { op, reg, rm } => !(op == 0x98 || (op == 0x92 && rm > 1) || (op == 0x93 && reg
            > 1)),
        Step::Raw(b) => extending(b) is None && b != or_ah(),
        Step::Mvex(m) => !from_slot(m) && !widens(m),
        _ => true,
    }
}

impl Card {
    /// With another state of what [`Vm`] has.
    pub open spec fn with(self, vm: Vm) -> Card {
        Card { vm, ..self }
    }

    /// With rax holding a value.
    pub open spec fn with_rax(self, low: u32, high: u32) -> Card {
        Card {
            vm: Vm { gp: (Some(low), self.vm.gp.1), ..self.vm },
            high: (Some(high), self.high.1),
            ..self
        }
    }

    /// What is known of a general register, its high dword where it is asked
    /// for.
    pub open spec fn general_value(self, r: u8, wide: bool) -> Option<(u32, u32)> {
        let (low, high) = if r == 0 {
            (self.vm.gp.0, self.high.0)
        } else {
            (self.vm.gp.1, self.high.1)
        };
        if r > 1 {
            Some(self.vm.general[r])
        } else if low is Some && !wide {
            Some((low->0, 0))
        } else if low is Some && high is Some {
            Some((low->0, high->0))
        } else {
            None
        }
    }

    /// The transfer slot with its first dword, or its first qword, set.
    pub open spec fn with_slot(self, v: (u32, u32), wide: bool) -> Card {
        let slot = Seq::new(
            16,
            |i: int|
                if i == 0 {
                    v.0
                } else if i == 1 && wide {
                    v.1
                } else {
                    self.vm.slot[i]
                },
        );
        self.with(Vm { slot, ..self.vm })
    }

    /// After an instruction on the scratch area: x87's `fild`, `fstp`, `fld`
    /// and `fistp` on the transfer slot, `fnstcw` and `fldcw`, and the moves of
    /// a control word to eax and from ax.
    #[verifier::opaque]
    pub open spec fn on_scratch(self, opcodes: Seq<u8>, reg: u8, off: i32) -> Card {
        let one = opcodes.len() == 1;
        let two = opcodes.len() == 2;
        let width: u8 = if opcodes[0] == 0xdd {
            1
        } else {
            0
        };
        let float = one && (opcodes[0] == 0xdd || opcodes[0] == 0xd9);
        let (low, high) = (self.vm.slot[0], self.vm.slot[1]);
        let x = self.fpu;
        if one && opcodes[0] == 0xdf && reg == 5 && off == S_XFER {
            Card { fpu: Fpu { top: Top::Integer(low, high), ..x }, ..self }
        } else if float && reg == 3 && off == S_XFER && x.top is Integer {
            let v = (x.floated)(width, (x.top->Integer_0, x.top->Integer_1), x.cw);
            Card { fpu: Fpu { top: Top::Empty, ..x }, ..self.with_slot(v, width == 1) }
        } else if float && reg == 0 && off == S_XFER {
            let top = Top::Float(
                width,
                low,
                if width == 1 {
                    high
                } else {
                    0
                },
            );
            Card { fpu: Fpu { top, ..x }, ..self }
        } else if one && opcodes[0] == 0xdf && reg == 7 && off == S_XFER && x.top is Float {
            let v = (x.integral)(x.top->Float_0, (x.top->Float_1, x.top->Float_2), x.cw);
            Card { fpu: Fpu { top: Top::Empty, ..x }, ..self.with_slot(v, true) }
        } else if one && opcodes[0] == 0xd9 && reg == 7 && off == S_CW {
            Card { fpu: Fpu { kept: (x.cw, x.kept.1), ..x }, ..self }
        } else if one && opcodes[0] == 0xd9 && reg == 5 && off == S_CW {
            Card { fpu: Fpu { cw: x.kept.0, ..x }, ..self }
        } else if one && opcodes[0] == 0xd9 && reg == 5 && off == S_CW2 {
            Card { fpu: Fpu { cw: x.kept.1, ..x }, ..self }
        } else if two && opcodes[0] == 0x0f && opcodes[1] == 0xb7 && reg == 0 && off == S_CW {
            self.with_rax(x.kept.0 as u32, 0)
        } else if two && opcodes[0] == 0x66 && opcodes[1] == 0x89 && reg == 0 && off == S_CW2
            && self.vm.gp.0 is Some {
            let word = (self.vm.gp.0->0 % 0x1_0000) as u16;
            Card { fpu: Fpu { kept: (x.kept.0, word), ..x }, ..self }
        } else {
            self.with(self.vm.lost())
        }
    }

    /// With rax and rcx given back what they held where the operand is
    /// addressed by them.
    pub open spec fn recovered(self, x: MemOp) -> Card {
        Card {
            vm: self.vm.recovered(x),
            high: (
                if x.spec_uses(0) {
                    None
                } else {
                    self.high.0
                },
                if x.spec_uses(1) {
                    None
                } else {
                    self.high.1
                },
            ),
            ..self
        }
    }

    /// With the element of `bytes` bytes at `a` in memory made `x`.
    pub open spec fn with_part(self, a: int, bytes: int, x: int) -> Card {
        let mem = |y: int|
            if y == a - a % 4 {
                replaced((self.vm.mem)(y), a, bytes, x)
            } else {
                (self.vm.mem)(y)
            };
        self.with(Vm { mem, ..self.vm })
    }

    /// After a move between rax and memory. `movzx eax` of a byte or a word,
    /// `mov eax`, `mov rax` and `movsxd rax` from it; `mov` of al, ax, eax and
    /// rax to it.
    #[verifier::opaque]
    pub open spec fn moved(self, opcodes: Seq<u8>, x: MemOp) -> Card {
        let a = (self.vm.addr)(x);
        let dword = (self.vm.mem)(a - a % 4);
        let one = opcodes.len() == 1;
        let two = opcodes.len() == 2;
        let known = self.vm.gp.0 is Some;
        let eax = self.vm.gp.0->0;
        if two && opcodes[0] == 0x0f && opcodes[1] == 0xb6 {
            self.with_rax(meaning::part(dword, a, 1) as u32, 0)
        } else if two && opcodes[0] == 0x0f && opcodes[1] == 0xb7 && a % 2 == 0 {
            self.with_rax(meaning::part(dword, a, 2) as u32, 0)
        } else if one && opcodes[0] == 0x8b && a % 4 == 0 {
            self.with_rax(dword, 0)
        } else if two && opcodes[0] == 0x48 && opcodes[1] == 0x8b && a % 4 == 0 {
            self.with_rax(dword, (self.vm.mem)(a + 4))
        } else if two && opcodes[0] == 0x48 && opcodes[1] == 0x63 && a % 4 == 0 {
            self.with_rax(dword, extension(dword, true))
        } else if one && opcodes[0] == 0x88 && known {
            self.with_part(a, 1, eax as int % 0x100)
        } else if two && opcodes[0] == 0x66 && opcodes[1] == 0x89 && a % 2 == 0 && known {
            self.with_part(a, 2, eax as int % 0x1_0000)
        } else if one && opcodes[0] == 0x89 && a % 4 == 0 && known {
            self.with_part(a, 4, eax as int)
        } else if two && opcodes[0] == 0x48 && opcodes[1] == 0x89 && a % 4 == 0 && known
            && self.high.0 is Some {
            self.with_part(a, 4, eax as int).with_part(a + 4, 4, self.high.0->0 as int)
        } else {
            self.with(self.vm.lost())
        }
    }

    /// After general instructions: `or ah, 12`, or a move that extends a
    /// general register into rax.
    pub open spec fn extended(self, b: Seq<u8>) -> Card {
        let (r, signed) = extending(b)->0;
        if b == or_ah() && self.vm.gp.0 is Some {
            self.with_rax(self.vm.gp.0->0 | 0x0c00, 0)
        } else if extending(b) is Some && self.general_value(r, false) is Some {
            let x = (self.general_value(r, false)->0).0;
            self.with_rax(x, extension(x, signed))
        } else {
            self.with(self.vm.lost())
        }
    }

    /// After vcvtps2pd of a register, or of a float broadcast from memory.
    pub open spec fn widened(self, m: Mvex) -> Card {
        let vm = self.vm;
        match m.rm {
            Rm::Reg(r) => if m.sss == 0 {
                let v = vm.computed(m, vm.z[m.reg], vm.z[m.vvvv], vm.z[r]);
                let new = meaning::merged(vm.z[m.reg], v, m.k, vm.k[m.k], 1);
                self.with(Vm { z: vm.z.insert(m.reg, new), ..vm })
            } else {
                self.with(vm.lost())
            },
            Rm::Mem(x) => if m.sss == 1 && (vm.addr)(x) % 4 == 0 {
                let b = vm.spread(0, (vm.addr)(x));
                let v = vm.computed(m, vm.z[m.reg], vm.z[m.vvvv], b);
                let new = meaning::merged(vm.z[m.reg], v, m.k, vm.k[m.k], 1);
                Card {
                    vm: Vm { z: vm.z.insert(m.reg, new), ..vm.recovered(x) },
                    high: (None, None),
                    ..self
                }
            } else {
                self.with(vm.lost())
            },
            _ => self.with(vm.lost()),
        }
    }

    /// After a step that [`Vm`] has not.
    #[verifier::opaque]
    pub open spec fn special(self, s: Step) -> Card {
        let vm = self.vm;
        match s {
            Step::FsOp { opcodes, reg, off } => self.on_scratch(opcodes, reg, off),
            Step::Legacy { opcodes, m } => self.recovered(m).moved(opcodes, m),
            Step::Gpr { r, wide, off: _, store } => match self.general_value(r, wide) {
                Some(v) => if store {
                    self.with_slot(v, wide)
                } else {
                    self.with(vm.lost())
                },
                None => self.with(vm.lost()),
            },
            Step::Tail { r, wide, off: _ } => {
                let high = if wide {
                    vm.slot[1]
                } else {
                    0
                };
                self.with(Vm { general: vm.general.insert(r, (vm.slot[0], high)), ..vm })
            },
            Step::VexK { op, reg, rm } => if op == 0x92 {
                let word = (vm.general[rm].0 % 0x1_0000) as u16;
                self.with(Vm { k: vm.k.insert(reg, word), ..vm })
            } else if op == 0x93 {
                self.with(Vm { general: vm.general.insert(reg, (vm.k[rm] as u32, 0)), ..vm })
            } else {
                let either = vm.k[reg] | vm.k[rm];
                Card { flags: (either == 0, either == 0xffff), ..self }
            },
            Step::Raw(b) => self.extended(b),
            Step::Mvex(m) => if from_slot(m) {
                let v = both(m.w, vm.slot[0], vm.slot[1]);
                let new = meaning::merged(vm.z[m.reg], v, m.k, vm.k[m.k], m.w);
                self.with(Vm { z: vm.z.insert(m.reg, new), ..vm })
            } else {
                self.widened(m)
            },
            _ => self,
        }
    }

    /// What is known of the high dwords after a step that [`Vm`] has.
    pub open spec fn high_after(self, s: Step) -> (Option<u32>, Option<u32>) {
        match s {
            Step::K => (None, self.high.1),
            Step::Flags => (None, self.high.1),
            Step::Raw(_) => (None, None),
            Step::VexK { op, reg, rm: _ } => if op != 0x93 {
                self.high
            } else if reg == 0 {
                (Some(0), self.high.1)
            } else {
                (self.high.0, Some(0))
            },
            Step::Mvex(m) => if m.rm is Mem {
                (None, None)
            } else {
                self.high
            },
            _ => self.high,
        }
    }

    /// After one step.
    pub open spec fn step(self, consts: Seq<Seq<u8>>, s: Step) -> Card {
        if plain(s) {
            Card { vm: self.vm.step(consts, s), high: self.high_after(s), ..self }
        } else {
            self.special(s)
        }
    }

    /// After the steps of a sequence, whose constants are `consts`.
    pub open spec fn run(self, consts: Seq<Seq<u8>>, steps: Seq<Step>) -> Card
        decreases steps.len(),
    {
        if steps.len() == 0 {
            self
        } else {
            self.run(consts, steps.drop_last()).step(consts, steps.last())
        }
    }
}

impl Prog {
    /// What the sequence so far does to the card, its constants being `consts`
    /// in the end.
    pub open spec fn runs(self, consts: Seq<Seq<u8>>, c: Card) -> Card {
        c.run(consts, self.steps)
    }

    /// The same sequence before its first step.
    pub open spec fn bare(self) -> Prog {
        Prog { steps: Seq::empty(), ..self }
    }
}

/// One step more is that step taken after the others.
pub proof fn lemma_step(p: Prog, consts: Seq<Seq<u8>>, c: Card, s: Step)
    ensures
        p.step(s).runs(consts, c) == p.runs(consts, c).step(consts, s),
{
    assert(p.step(s).steps == p.steps.push(s));
    assert(p.steps.push(s).drop_last() =~= p.steps);
}

/// Steps that [`Vm`] has do to it what they do there, and leave the flags and
/// x87 alone.
pub proof fn lemma_fragment(p: Prog, q: Prog, frag: Prog, consts: Seq<Seq<u8>>, c: Card)
    requires
        q.steps == p.steps + frag.steps,
        forall|i: int| 0 <= i < frag.steps.len() ==> plain(#[trigger] frag.steps[i]),
    ensures
        ({
            let before = p.runs(consts, c);
            let after = q.runs(consts, c);
            &&& after.vm == frag.meaning(consts, before.vm)
            &&& after.flags == before.flags && after.fpu == before.fpu
        }),
    decreases frag.steps.len(),
{
    let n = frag.steps.len();
    if n == 0 {
        assert(q.steps =~= p.steps);
    } else {
        let s = frag.steps.last();
        let f1 = Prog { steps: frag.steps.drop_last(), ..frag };
        let q1 = Prog { steps: q.steps.drop_last(), ..q };
        assert(q1.steps =~= p.steps + f1.steps);
        assert forall|i: int| 0 <= i < f1.steps.len() implies plain(#[trigger] f1.steps[i]) by {
            assert(f1.steps[i] == frag.steps[i]);
        }
        lemma_fragment(p, q1, f1, consts, c);
        assert(q.steps.last() == s);
        assert(plain(frag.steps[n - 1]));
    }
}

/// Setting the scratch mask changes it, eax, and nothing else.
pub proof fn lemma_mask_imm(p: Prog, consts: Seq<Seq<u8>>, c: Card, mask: u16)
    ensures
        ({
            let before = p.runs(consts, c);
            let after = p.mask_imm(mask).runs(consts, c);
            &&& after.vm == (Vm {
                k: before.vm.k.insert(p.kscr, mask),
                gp: (Some(mask as u32), before.vm.gp.1),
                ..before.vm
            })
            &&& after.flags == before.flags && after.fpu == before.fpu
        }),
{
    let frag = p.bare().mask_imm(mask);
    let q = p.mask_imm(mask);
    assert(q.steps =~= p.steps + frag.steps);
    assert forall|i: int| 0 <= i < frag.steps.len() implies plain(#[trigger] frag.steps[i]) by {
        assert(or_ah().len() == 3);
    }
    lemma_fragment(p, q, frag, consts, c);
    meaning::lemma_mask_imm(p.bare(), consts, p.runs(consts, c).vm, mask);
}

/// The rest of a scalar result, after lane 0.
pub proof fn lemma_scalar_rest(p: Prog, consts: Seq<Seq<u8>>, c: Card, d: u8, s1: u8, w: u8)
    requires
        p.runs(consts, c).vm.wf(),
        w <= 1,
        p.kscr != 0,
    ensures
        ({
            let before = p.runs(consts, c);
            let after = p.scalar_rest(d, s1, w).runs(consts, c);
            &&& after.vm == p.bare().scalar_rest(d, s1, w).meaning(consts, before.vm)
            &&& meaning::only(before.vm, after.vm, d, p.kscr)
            &&& after.flags == before.flags && after.fpu == before.fpu
            &&& forall|i: int|
                0 <= i < 16 ==> #[trigger] after.vm.z[d][i] == (if i >= 4 {
                    0
                } else if i >= (if w == 0 { 1int } else { 2 }) {
                    before.vm.z[s1][i]
                } else {
                    before.vm.z[d][i]
                })
        }),
{
    let frag = p.bare().scalar_rest(d, s1, w);
    let q = p.scalar_rest(d, s1, w);
    assert(q.steps =~= p.steps + frag.steps);
    assert forall|i: int| 0 <= i < frag.steps.len() implies plain(#[trigger] frag.steps[i]) by {
        assert(or_ah().len() == 3);
    }
    lemma_fragment(p, q, frag, consts, c);
    lane_results::lemma_scalar_rest(p.bare(), consts, p.runs(consts, c).vm, d, s1, w);
}

/// A mask cut to its low eight bits, or left alone: steps that [`Vm`] has.
pub proof fn lemma_cut(p: Prog, consts: Seq<Seq<u8>>, c: Card, k: u8, byte: bool)
    ensures
        ({
            let before = p.runs(consts, c);
            let after = p.cut(k, byte).runs(consts, c);
            &&& after.vm == p.bare().cut(k, byte).meaning(consts, before.vm)
            &&& after.flags == before.flags && after.fpu == before.fpu
        }),
{
    let frag = p.bare().cut(k, byte);
    let q = p.cut(k, byte);
    assert(q.steps =~= p.steps + frag.steps);
    assert forall|i: int| 0 <= i < frag.steps.len() implies plain(#[trigger] frag.steps[i]) by {
        assert(or_ah().len() == 3);
    }
    lemma_fragment(p, q, frag, consts, c);
}

} // verus!
