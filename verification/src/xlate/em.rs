//! The emitter of out-of-line sequences: it emits the bytes of a
//! [`Prog`] as the steps are taken.
use crate::bits;
use crate::xlate::code;
use crate::xlate::code::{
    Fixup, FixupKind, MemOp, Mvex, Rm, Thunk, S_FLAGS, S_K, S_RAX, S_RCX, ZMM_SLOTS,
};
use crate::xlate::insn;
use crate::xlate::insn::Decoded;
use crate::xlate::prog;
use crate::xlate::prog::{Low, Prog, Step};
use vstd::prelude::*;

verus! {

/// Emits one thunk: MVEX, VEX mask and integer instructions, keeping
/// what it clobbers in the scratch area.
pub struct Em {
    scratch: i32,
    t: Thunk,
    /// zmm registers in use: the instruction's operands and the temporaries.
    reserved: u32,
    temps: Vec<u8>,
    kscr: u8,
    k_used: bool,
    rax_used: bool,
    rcx_used: bool,
    flags_used: bool,
    /// General registers loaded from the scratch area after the restores.
    tail: Vec<(u8, bool, i32)>,
    prog: Ghost<Prog>,
}

impl View for Em {
    type V = Prog;

    closed spec fn view(&self) -> Prog {
        self.prog@
    }
}

/// Whether the bits of `bits` below 32 are exactly the members of `used`.
spec fn bits_are(bits: u32, used: Seq<u8>) -> bool {
    forall|z: u8| z < 32 ==> ((bits & (1u32 << z)) != 0) == #[trigger] used.contains(z)
}

proof fn lemma_set_bit(bits: u32, used: Seq<u8>, z: u8)
    requires
        z < 32,
        bits_are(bits, used),
    ensures
        bits_are(bits | (1u32 << z), used.push(z)),
{
    assert forall|y: u8| y < 32 implies (((bits | (1u32 << z)) & (1u32 << y)) != 0)
        == #[trigger] used.push(z).contains(y) by {
        assert((((bits | (1u32 << z)) & (1u32 << y)) != 0) == ((bits & (1u32 << y)) != 0 || y == z))
            by (bit_vector)
            requires
                z < 32,
                y < 32,
        ;
        lemma_push_contains(used, z, y);
        assert(((bits & (1u32 << y)) != 0) == used.contains(y));
    }
}

proof fn lemma_push_contains(s: Seq<u8>, z: u8, y: u8)
    ensures
        s.push(z).contains(y) == (s.contains(y) || y == z),
{
    if s.contains(y) {
        let i = choose|i: int| 0 <= i < s.len() && s[i] == y;
        assert(s.push(z)[i] == y);
    }
    if y == z {
        assert(s.push(z)[s.len() as int] == y);
    }
    if s.push(z).contains(y) {
        let i = choose|i: int| 0 <= i < s.push(z).len() && s.push(z)[i] == y;
        assert(i < s.len() ==> s[i] == y);
    }
}

proof fn lemma_no_bits()
    ensures
        bits_are(0, seq![]),
{
    assert forall|z: u8| z < 32 implies ((0u32 & (1u32 << z)) != 0) == #[trigger] Seq::<
        u8,
    >::empty().contains(z) by {
        assert(0u32 & (1u32 << z) == 0) by (bit_vector);
    }
}

/// Fewer than 32 registers in use leave one free.
pub proof fn lemma_some_free(used: Seq<u8>)
    requires
        used.len() < 32,
    ensures
        !used.contains(prog::free_from(used, 0)),
        prog::free_from(used, 0) < 32,
{
    if forall|z: u8| z < 32 ==> used.contains(z) {
        let full = vstd::set_lib::set_int_range(0, 32);
        let held = used.map_values(|z: u8| z as int).to_set();
        vstd::set_lib::lemma_int_range(0, 32);
        used.map_values(|z: u8| z as int).lemma_cardinality_of_set();
        assert forall|z: int| full.contains(z) implies held.contains(z) by {
            assert(used.contains(z as u8));
            let i = choose|i: int| 0 <= i < used.len() && used[i] == z as u8;
            assert(used.map_values(|z: u8| z as int)[i] == z);
        }
        vstd::set_lib::lemma_len_subset(full, held);
        assert(false);
    }
    let z = choose|z: u8| z < 32 && !used.contains(z);
    lemma_free_from(used, 0, z);
}

proof fn lemma_free_from(used: Seq<u8>, from: int, z: u8)
    requires
        0 <= from <= z < 32,
        !used.contains(z),
    ensures
        !used.contains(prog::free_from(used, from)),
        prog::free_from(used, from) < 32,
    decreases 32 - from,
{
    if from < 31 && used.contains(from as u8) {
        lemma_free_from(used, from + 1, z);
    }
}

/// A register not in use is a temporary of its own.
proof fn lemma_fresh(operands: Seq<u8>, temps: Seq<u8>, z: u8)
    requires
        prog::fresh(temps, operands),
        !(operands + temps).contains(z),
    ensures
        prog::fresh(temps.push(z), operands),
{
    let used = operands + temps;
    if operands.contains(z) {
        let i = choose|i: int| 0 <= i < operands.len() && operands[i] == z;
        assert(used[i] == z);
    }
    assert forall|i: int| 0 <= i < temps.len() implies #[trigger] temps[i] != z by {
        assert(used[operands.len() + i] == temps[i]);
    }
}

proof fn lemma_lowered_push(scratch: i32, kscr: u8, steps: Seq<Step>, s: Step)
    ensures
        prog::lowered(scratch, kscr, steps.push(s)) == prog::lowered(scratch, kscr, steps).after(
            scratch,
            kscr,
            s,
        ),
{
    assert(steps.push(s).drop_last() =~= steps);
}

/// Whether two 64-byte constants are the same.
fn same_const(a: &[u8; 64], b: &[u8; 64]) -> (r: bool)
    ensures
        r == (a@ == b@),
{
    let mut i: usize = 0;
    while i < 64
        invariant
            i <= 64,
            forall|j: int| 0 <= j < i ==> a@[j] == b@[j],
        decreases 64 - i,
    {
        if a[i] != b[i] {
            return false;
        }
        i = i + 1;
    }
    assert(a@ =~= b@);
    true
}

impl Em {
    /// What has been emitted and saved.
    spec fn now(&self) -> Low {
        Low {
            body: self.t.body(),
            slots: self.temps@.len(),
            rax: self.rax_used,
            rcx: self.rcx_used,
            k: self.k_used,
            flags: self.flags_used,
            tail: self.tail@,
        }
    }

    /// What emitting leaves alone.
    spec fn rest(&self) -> (i32, u8, u32, Seq<u8>, Seq<Seq<u8>>, Prog) {
        (self.scratch, self.kscr, self.reserved, self.temps@, self.t.constants(), self.prog@)
    }

    /// Whether what is emitted and recorded is what the steps say.
    pub closed spec fn wf(&self) -> bool {
        let p = self.prog@;
        &&& self.scratch == p.scratch
        &&& self.kscr == p.kscr
        &&& self.now() == p.low()
        &&& self.t.constants() == p.consts
        &&& self.temps@ == p.temps
        &&& p.sound()
        &&& p.operands.len() <= 5
        &&& bits_are(self.reserved, p.operands + p.temps)
    }

    /// An emitter for the sequence of `insn`.
    pub fn new(scratch: i32, insn: &Decoded) -> (em: Em)
        requires
            insn.head.op_count <= 5,
        ensures
            em.wf(),
            em@ == Prog::start(scratch, *insn),
    {
        let mut reserved: u32 = 0;
        let mut kmask: u32 = 0;
        let mut i: usize = 0;
        proof {
            lemma_no_bits();
        }
        while i < insn.head.op_count as usize
            invariant
                i <= insn.head.op_count <= 5,
                bits_are(reserved, prog::operand_vregs(*insn, i as int)),
                prog::operand_vregs(*insn, i as int).len() <= i,
                bits_are(kmask, prog::operand_kregs(*insn, i as int)),
            decreases insn.head.op_count - i,
        {
            let kind: u8 = insn.op_kind(i);
            if kind == insn::KIND_REGISTER {
                let r: u8 = insn.op_register(i);
                if let Some(z) = insn::vreg(r) {
                    proof {
                        lemma_set_bit(reserved, prog::operand_vregs(*insn, i as int), z);
                    }
                    reserved = reserved | (1u32 << z);
                }
                if let Some(k) = insn::kreg(r) {
                    proof {
                        lemma_set_bit(kmask, prog::operand_kregs(*insn, i as int), k);
                    }
                    kmask = kmask | (1u32 << k);
                }
            }
            i = i + 1;
        }
        if let Some(k) = insn::kreg(insn.head.mask) {
            proof {
                lemma_set_bit(kmask, prog::operand_kregs(*insn, i as int), k);
            }
            kmask = kmask | (1u32 << k);
        }
        let ghost ks = prog::mask_regs(*insn);
        let mut k: u8 = 7;
        while k > 0 && kmask & (1u32 << k) != 0
            invariant
                k <= 7,
                bits_are(kmask, ks),
                prog::free_mask(ks, 7) == prog::free_mask(ks, k as int),
            decreases k,
        {
            assert(ks.contains(k));
            k = k - 1;
        }
        let kscr: u8 = if k > 0 {
            assert(!ks.contains(k));
            k
        } else {
            7
        };
        let t = Thunk { seq: Vec::new(), fixups: Vec::new(), consts: Vec::new() };
        let em = Em {
            scratch,
            t,
            reserved,
            temps: Vec::new(),
            kscr,
            k_used: false,
            rax_used: false,
            rcx_used: false,
            flags_used: false,
            tail: Vec::new(),
            prog: Ghost(Prog::start(scratch, *insn)),
        };
        proof {
            reveal(Prog::sound);
            let p = em.prog@;
            assert(p.operands + p.temps =~= p.operands);
            assert(t.constants() =~= Seq::<Seq<u8>>::empty());
        }
        em
    }

    /// The scratch mask register.
    pub fn scratch_mask(&self) -> (k: u8)
        requires
            self.wf(),
        ensures
            k == self@.kscr,
    {
        self.kscr
    }

    fn emit(&mut self, bytes: &[u8])
        ensures
            final(self).now() == old(self).now().raw(bytes@),
            final(self).rest() == old(self).rest(),
    {
        bits::push_all(&mut self.t.seq, bytes);
    }

    fn emit_gpr(&mut self, r: u8, wide: bool, off: i32, store: bool)
        ensures
            final(self).now() == old(self).now().raw(
                code::gpr_bytes(old(self).scratch, r, wide, off, store),
            ),
            final(self).rest() == old(self).rest(),
    {
        self.t.seq.push(0x64);
        let w: u8 = if wide {
            8
        } else {
            0
        };
        let rex: u8 = 0x40 | w | ((r >> 3) & 1);
        if rex != 0x40 {
            self.t.seq.push(rex);
        }
        self.t.seq.push(
            if store {
                0x89
            } else {
                0x8b
            },
        );
        self.t.seq.push(0x04 | ((r & 7) << 3));
        self.t.seq.push(0x25);
        bits::push_le32(&mut self.t.seq, self.scratch.wrapping_add(off) as u32);
        assert(self.t.seq@ =~= old(self).t.seq@ + code::gpr_bytes(
            old(self).scratch,
            r,
            wide,
            off,
            store,
        ));
    }

    fn emit_vexk(&mut self, op: u8, reg: u8, rm: u8)
        ensures
            final(self).now() == old(self).now().raw(code::vexk_bytes(op, reg, rm)),
            final(self).rest() == old(self).rest(),
    {
        if reg < 8 && rm < 8 {
            self.t.seq.push(0xc5);
            self.t.seq.push(0xf8);
            self.t.seq.push(op);
            self.t.seq.push(0xc0 | (reg << 3) | rm);
        } else {
            self.t.seq.push(0xc4);
            self.t.seq.push(((!(reg >> 3) & 1) << 7) | 0x40 | ((!(rm >> 3) & 1) << 5) | 1);
            self.t.seq.push(0x78);
            self.t.seq.push(op);
            self.t.seq.push(0xc0 | ((reg & 7) << 3) | (rm & 7));
        }
        assert(self.t.seq@ =~= old(self).t.seq@ + code::vexk_bytes(op, reg, rm));
    }

    /// ModRM, SIB and displacement of a memory operand; a RIP-relative
    /// one is left zero.
    fn emit_mem(&mut self, reg: u8, m: MemOp)
        ensures
            final(self).now() == old(self).now().raw(code::mem_bytes(reg, m)),
            final(self).rest() == old(self).rest(),
    {
        let r3: u8 = (reg & 7) << 3;
        if m.rip.is_some() {
            self.t.seq.push(0x05 | r3);
            self.t.seq.push(0);
            self.t.seq.push(0);
            self.t.seq.push(0);
            self.t.seq.push(0);
        } else {
            match (m.base, m.index) {
                (Some(b), None) => {
                    if b & 7 != 4 {
                        self.t.seq.push(0x80 | r3 | (b & 7));
                    } else {
                        // rsp or r12 as the base: a SIB byte with no index.
                        self.t.seq.push(0x84 | r3);
                        self.t.seq.push(0x24);
                    }
                },
                (Some(b), Some(i)) => {
                    self.t.seq.push(0x84 | r3);
                    self.t.seq.push((m.scale << 6) | ((i & 7) << 3) | (b & 7));
                },
                (None, Some(i)) => {
                    self.t.seq.push(0x04 | r3);
                    self.t.seq.push((m.scale << 6) | ((i & 7) << 3) | 5);
                },
                (None, None) => {
                    self.t.seq.push(0x04 | r3);
                    self.t.seq.push(0x25);
                },
            }
            bits::push_le32(&mut self.t.seq, (m.disp as i32) as u32);
        }
        assert(self.t.seq@ =~= old(self).t.seq@ + code::mem_bytes(reg, m));
    }

    /// The `fs` prefix where it is needed, the MVEX prefix and the opcode.
    fn emit_prefix(&mut self, m: Mvex)
        ensures
            final(self).now() == old(self).now().raw(m.seg() + m.prefix() + seq![m.op]),
            final(self).rest() == old(self).rest(),
    {
        let (xbar, bbar): (u8, u8) = match m.rm {
            Rm::Reg(r) => (!(r >> 4) & 1, !(r >> 3) & 1),
            Rm::Mem(mm) => (
                match mm.index {
                    Some(i) => !(i >> 3) & 1,
                    None => 1,
                },
                match mm.base {
                    Some(b) => !(b >> 3) & 1,
                    None => 1,
                },
            ),
            Rm::Fs(_) => (1, 1),
            Rm::Const(_) => (1, 1),
        };
        if let Rm::Fs(_) = m.rm {
            self.t.seq.push(0x64);
        }
        self.t.seq.push(0x62);
        self.t.seq.push(
            ((!(m.reg >> 3) & 1) << 7) | (xbar << 6) | (bbar << 5) | ((!(m.reg >> 4) & 1) << 4)
                | m.map,
        );
        self.t.seq.push((m.w << 7) | ((!m.vvvv & 0xf) << 3) | m.pp);
        self.t.seq.push((m.sss << 4) | ((!(m.vvvv >> 4) & 1) << 3) | (m.k & 7));
        self.t.seq.push(m.op);
        assert(self.t.seq@ =~= old(self).t.seq@ + (m.seg() + m.prefix() + seq![m.op]));
    }

    /// ModRM and what follows it, but for the immediate.
    fn emit_operand(&mut self, m: Mvex)
        ensures
            final(self).now() == old(self).now().raw(m.operand(old(self).scratch)),
            final(self).rest() == old(self).rest(),
    {
        let r3: u8 = (m.reg & 7) << 3;
        match m.rm {
            Rm::Reg(r) => {
                self.t.seq.push(0xc0 | r3 | (r & 7));
            },
            Rm::Fs(off) => {
                self.t.seq.push(0x04 | r3);
                self.t.seq.push(0x25);
                bits::push_le32(&mut self.t.seq, self.scratch.wrapping_add(off) as u32);
            },
            Rm::Const(_) => {
                self.t.seq.push(0x05 | r3);
                self.t.seq.push(0);
                self.t.seq.push(0);
                self.t.seq.push(0);
                self.t.seq.push(0);
            },
            Rm::Mem(mm) => {
                self.emit_mem(m.reg, mm);
            },
        }
        assert(self.t.seq@ =~= old(self).t.seq@ + m.operand(old(self).scratch));
    }

    fn emit_mvex(&mut self, m: Mvex)
        ensures
            final(self).now() == old(self).now().mvex(old(self).scratch, m),
            final(self).rest() == old(self).rest(),
    {
        let ghost before = self.t.seq@;
        self.emit_prefix(m);
        self.emit_operand(m);
        let imm_len: usize = match m.imm {
            Some(i) => {
                self.t.seq.push(i);
                1
            },
            None => 0,
        };
        assert(self.t.seq@ =~= before + m.bytes(old(self).scratch));
        let fix: Option<FixupKind> = match m.rm {
            Rm::Const(i) => Some(FixupKind::Const(i)),
            Rm::Mem(mm) => match mm.rip {
                Some(target) => Some(FixupKind::Rip(target)),
                None => None,
            },
            _ => None,
        };
        if let Some(what) = fix {
            let insn_end: usize = self.t.seq.len();
            assert(m.bytes(old(self).scratch).len() == 10 + imm_len);
            let disp_at: usize = insn_end - imm_len - 4;
            self.t.fixups.push(Fixup { disp_at, insn_end, what });
        }
    }

    fn recover(&mut self, m: MemOp)
        ensures
            final(self).now() == old(self).now().recover(old(self).scratch, m),
            final(self).rest() == old(self).rest(),
    {
        if self.rax_used && m.uses(0) {
            self.emit_gpr(0, true, S_RAX, false);
        }
        if self.rcx_used && m.uses(1) {
            self.emit_gpr(1, true, S_RCX, false);
        }
    }

    fn save_rax(&mut self)
        ensures
            final(self).now() == old(self).now().save_rax(old(self).scratch),
            final(self).rest() == old(self).rest(),
    {
        if !self.rax_used {
            self.rax_used = true;
            self.emit_gpr(0, true, S_RAX, true);
        }
    }

    /// rax is about to be clobbered.
    pub fn rax(&mut self)
        requires
            old(self).wf(),
        ensures
            final(self).wf(),
            final(self)@ == old(self)@.step(Step::Rax),
    {
        proof {
            reveal(Prog::sound);
            lemma_lowered_push(self@.scratch, self@.kscr, self@.steps, Step::Rax);
        }
        self.save_rax();
        self.prog = Ghost(self.prog@.step(Step::Rax));
    }

    /// rcx is about to be clobbered.
    pub fn rcx(&mut self)
        requires
            old(self).wf(),
        ensures
            final(self).wf(),
            final(self)@ == old(self)@.step(Step::Rcx),
    {
        proof {
            reveal(Prog::sound);
            lemma_lowered_push(self@.scratch, self@.kscr, self@.steps, Step::Rcx);
        }
        if !self.rcx_used {
            self.rcx_used = true;
            self.emit_gpr(1, true, S_RCX, true);
        }
        self.prog = Ghost(self.prog@.step(Step::Rcx));
    }

    /// The scratch mask register, saved on first use.
    pub fn k(&mut self) -> (k: u8)
        requires
            old(self).wf(),
        ensures
            final(self).wf(),
            final(self)@ == old(self)@.step(Step::K),
            k == old(self)@.kscr,
    {
        proof {
            reveal(Prog::sound);
            lemma_lowered_push(self@.scratch, self@.kscr, self@.steps, Step::K);
        }
        if !self.k_used {
            self.k_used = true;
            self.save_rax();
            self.emit_vexk(0x93, 0, self.kscr);
            self.emit_gpr(0, true, S_K, true);
        }
        self.prog = Ghost(self.prog@.step(Step::K));
        self.kscr
    }

    /// The flags are about to be clobbered (rax is too, and is saved first).
    pub fn flags(&mut self)
        requires
            old(self).wf(),
        ensures
            final(self).wf(),
            final(self)@ == old(self)@.step(Step::Flags),
    {
        proof {
            reveal(Prog::sound);
            lemma_lowered_push(self@.scratch, self@.kscr, self@.steps, Step::Flags);
        }
        if !self.flags_used {
            self.flags_used = true;
            self.save_rax();
            let lahf_seto: [u8; 4] = [0x9f, 0x0f, 0x90, 0xc0];
            self.emit(&lahf_seto);
            assert(lahf_seto@ =~= seq![0x9fu8, 0x0f, 0x90, 0xc0]);
            self.emit_gpr(0, true, S_FLAGS, true);
        }
        self.prog = Ghost(self.prog@.step(Step::Flags));
    }

    /// A temporary zmm register, its value kept in the scratch area.
    pub fn temp(&mut self) -> (z: u8)
        requires
            old(self).wf(),
            old(self)@.temps.len() < ZMM_SLOTS,
        ensures
            final(self).wf(),
            final(self)@ == old(self)@.temp(),
            z == old(self)@.next_temp(),
            z < 32,
    {
        let ghost used = self@.operands + self@.temps;
        proof {
            reveal(Prog::sound);
            lemma_some_free(used);
        }
        let mut z: u8 = 0;
        while z < 31 && self.reserved & (1u32 << z) != 0
            invariant
                z <= 31,
                bits_are(self.reserved, used),
                prog::free_from(used, 0) == prog::free_from(used, z as int),
            decreases 32 - z,
        {
            assert(used.contains(z));
            z = z + 1;
        }
        proof {
            if z < 31 {
                assert(!used.contains(z));
            }
            assert(z == prog::free_from(used, 0));
            lemma_set_bit(self.reserved, used, z);
            lemma_lowered_push(self@.scratch, self@.kscr, self@.steps, Step::Temp(z));
            assert(used.push(z) =~= self@.operands + self@.temps.push(z));
            lemma_fresh(self@.operands, self@.temps, z);
        }
        let slot: usize = self.temps.len();
        self.reserved = self.reserved | (1u32 << z);
        self.emit_mvex(
            Mvex {
                map: 1,
                pp: 0,
                w: 0,
                op: 0x29,
                reg: z,
                vvvv: 0,
                rm: Rm::Fs(64 * (slot as i32)),
                k: 0,
                sss: 0,
                imm: None,
            },
        );
        self.temps.push(z);
        self.prog = Ghost(self.prog@.temp());
        z
    }

    /// The index of a 64-byte constant, added if it is new.
    pub fn constant(&mut self, c: [u8; 64]) -> (i: usize)
        requires
            old(self).wf(),
        ensures
            final(self).wf(),
            final(self)@ == old(self)@.constant(c@),
            i == old(self)@.index_of(c@),
            i < final(self)@.consts.len(),
            final(self)@.consts.len() >= old(self)@.consts.len(),
    {
        let ghost consts = self@.consts;
        let mut i: usize = 0;
        while i < self.t.consts.len()
            invariant
                *self == *old(self),
                self.wf(),
                consts == self@.consts,
                i <= self.t.consts@.len(),
                prog::find_from(consts, c@, 0) == prog::find_from(consts, c@, i as int),
            decreases self.t.consts@.len() - i,
        {
            assert(consts[i as int] == self.t.consts@[i as int]@);
            if same_const(&self.t.consts[i], &c) {
                return i;
            }
            i = i + 1;
        }
        self.t.consts.push(c);
        proof {
            reveal(Prog::sound);
            assert(self.t.constants() =~= consts.push(c@));
        }
        self.prog = Ghost(self.prog@.constant(c@));
        i
    }

    /// The index of a constant of sixteen dwords.
    pub fn const_dws(&mut self, v: [u32; 16]) -> (i: usize)
        requires
            old(self).wf(),
        ensures
            final(self).wf(),
            final(self)@ == old(self)@.constant(prog::dwords(v@)),
            i == old(self)@.index_of(prog::dwords(v@)),
            i < final(self)@.consts.len(),
            final(self)@.consts.len() >= old(self)@.consts.len(),
    {
        let mut c: [u8; 64] = [0u8; 64];
        let mut l: usize = 0;
        while l < 16
            invariant
                l <= 16,
                forall|j: int| 0 <= j < 4 * l ==> #[trigger] c@[j] == bits::le32(v@[j / 4])[j % 4],
            decreases 16 - l,
        {
            let x: u32 = v[l];
            c[4 * l] = (x & 0xff) as u8;
            c[4 * l + 1] = ((x >> 8) & 0xff) as u8;
            c[4 * l + 2] = ((x >> 16) & 0xff) as u8;
            c[4 * l + 3] = ((x >> 24) & 0xff) as u8;
            l = l + 1;
        }
        assert(c@ =~= prog::dwords(v@));
        self.constant(c)
    }

    /// The index of a constant with `v` in every dword lane.
    pub fn const_dw(&mut self, v: u32) -> (i: usize)
        requires
            old(self).wf(),
        ensures
            final(self).wf(),
            final(self)@ == old(self)@.constant(prog::splat32(v)),
            i == old(self)@.index_of(prog::splat32(v)),
            i < final(self)@.consts.len(),
            final(self)@.consts.len() >= old(self)@.consts.len(),
    {
        let d: [u32; 16] = [v, v, v, v, v, v, v, v, v, v, v, v, v, v, v, v];
        assert(d@ =~= Seq::new(16, |i: int| v));
        self.const_dws(d)
    }

    /// The index of a constant with `v` in every qword lane.
    pub fn const_qw(&mut self, v: u64) -> (i: usize)
        requires
            old(self).wf(),
        ensures
            final(self).wf(),
            final(self)@ == old(self)@.constant(prog::splat64(v)),
            i == old(self)@.index_of(prog::splat64(v)),
            i < final(self)@.consts.len(),
            final(self)@.consts.len() >= old(self)@.consts.len(),
    {
        let a: u32 = (v & 0xffff_ffff) as u32;
        let b: u32 = (v >> 32) as u32;
        let d: [u32; 16] = [a, b, a, b, a, b, a, b, a, b, a, b, a, b, a, b];
        assert(d@ =~= Seq::new(
            16,
            |i: int|
                if i % 2 == 0 {
                    (v & 0xffff_ffff) as u32
                } else {
                    (v >> 32) as u32
                },
        ));
        self.const_dws(d)
    }

    /// One MVEX.512 instruction.
    pub fn mvex(
        &mut self,
        map: u8,
        pp: u8,
        w: u8,
        op: u8,
        reg: u8,
        vvvv: u8,
        rm: Rm,
        k: u8,
        sss: u8,
        imm: Option<u8>,
    )
        requires
            old(self).wf(),
            rm.within(old(self)@.consts.len()),
        ensures
            final(self).wf(),
            final(self)@ == old(self)@.mvex(map, pp, w, op, reg, vvvv, rm, k, sss, imm),
    {
        let m = Mvex { map, pp, w, op, reg, vvvv, rm, k, sss, imm };
        proof {
            reveal(Prog::sound);
            lemma_lowered_push(self@.scratch, self@.kscr, self@.steps, Step::Mvex(m));
        }
        if let Rm::Mem(x) = m.rm {
            self.recover(x);
        }
        self.emit_mvex(m);
        self.prog = Ghost(self.prog@.step(Step::Mvex(m)));
    }

    /// A VEX-encoded mask instruction with two mask (or one general)
    /// register operands: `op` from the KAND/KMOV/KNOT/KOR/KXOR lines
    /// (VEX.128.0F.W0 41 44 45 47 90 92 93 98 /r).
    pub fn vexk(&mut self, op: u8, reg: u8, rm: u8)
        requires
            old(self).wf(),
        ensures
            final(self).wf(),
            final(self)@ == old(self)@.vexk(op, reg, rm),
    {
        proof {
            reveal(Prog::sound);
            lemma_lowered_push(self@.scratch, self@.kscr, self@.steps, Step::VexK { op, reg, rm });
        }
        self.emit_vexk(op, reg, rm);
        self.prog = Ghost(self.prog@.vexk(op, reg, rm));
    }

    pub fn kand(&mut self, k1: u8, k2: u8)
        requires
            old(self).wf(),
        ensures
            final(self).wf(),
            final(self)@ == old(self)@.vexk(0x41, k1, k2),
    {
        self.vexk(0x41, k1, k2);
    }

    pub fn knot(&mut self, k1: u8, k2: u8)
        requires
            old(self).wf(),
        ensures
            final(self).wf(),
            final(self)@ == old(self)@.vexk(0x44, k1, k2),
    {
        self.vexk(0x44, k1, k2);
    }

    pub fn kor(&mut self, k1: u8, k2: u8)
        requires
            old(self).wf(),
        ensures
            final(self).wf(),
            final(self)@ == old(self)@.vexk(0x45, k1, k2),
    {
        self.vexk(0x45, k1, k2);
    }

    pub fn kmov_kk(&mut self, k1: u8, k2: u8)
        requires
            old(self).wf(),
        ensures
            final(self).wf(),
            final(self)@ == old(self)@.vexk(0x90, k1, k2),
    {
        self.vexk(0x90, k1, k2);
    }

    pub fn kmov_k_r(&mut self, k: u8, r: u8)
        requires
            old(self).wf(),
        ensures
            final(self).wf(),
            final(self)@ == old(self)@.vexk(0x92, k, r),
    {
        self.vexk(0x92, k, r);
    }

    pub fn kmov_r_k(&mut self, r: u8, k: u8)
        requires
            old(self).wf(),
        ensures
            final(self).wf(),
            final(self)@ == old(self)@.vexk(0x93, r, k),
    {
        self.vexk(0x93, r, k);
    }

    /// `mov [fs:scratch+off], r` (89 /r) or `mov r, [fs:scratch+off]` (8B /r).
    pub fn gpr_scratch(&mut self, r: u8, wide: bool, off: i32, store: bool)
        requires
            old(self).wf(),
        ensures
            final(self).wf(),
            final(self)@ == old(self)@.gpr_scratch(r, wide, off, store),
    {
        let ghost s = Step::Gpr { r, wide, off, store };
        proof {
            reveal(Prog::sound);
            lemma_lowered_push(self@.scratch, self@.kscr, self@.steps, s);
        }
        self.emit_gpr(r, wide, off, store);
        self.prog = Ghost(self.prog@.step(s));
    }

    /// Instructions with register operands only.
    pub fn raw(&mut self, bytes: &[u8])
        requires
            old(self).wf(),
        ensures
            final(self).wf(),
            final(self)@ == old(self)@.raw(bytes@),
    {
        proof {
            reveal(Prog::sound);
            lemma_lowered_push(self@.scratch, self@.kscr, self@.steps, Step::Raw(bytes@));
        }
        self.emit(bytes);
        self.prog = Ghost(self.prog@.raw(bytes@));
    }

    pub fn mov_eax(&mut self, imm: u32)
        requires
            old(self).wf(),
        ensures
            final(self).wf(),
            final(self)@ == old(self)@.mov_eax(imm),
    {
        self.rax();
        let b: [u8; 5] = [
            0xb8,
            (imm & 0xff) as u8,
            ((imm >> 8) & 0xff) as u8,
            ((imm >> 16) & 0xff) as u8,
            ((imm >> 24) & 0xff) as u8,
        ];
        assert(b@ =~= seq![0xb8u8] + bits::le32(imm));
        self.raw(&b);
    }

    /// The scratch mask register set to `mask`.
    pub fn mask_imm(&mut self, mask: u16) -> (k: u8)
        requires
            old(self).wf(),
        ensures
            final(self).wf(),
            final(self)@ == old(self)@.mask_imm(mask),
            k == old(self)@.kscr,
    {
        let k: u8 = self.k();
        self.mov_eax(mask as u32);
        self.kmov_k_r(k, 0);
        k
    }

    // ---- the vector instructions the sequences use ----

    /// vmovaps d{k}, s (MVEX.512.0F.W0 28 /r); vmovapd for W1 (66, 28).
    pub fn vmov(&mut self, d: u8, s: Rm, k: u8, w: u8)
        requires
            old(self).wf(),
            s.within(old(self)@.consts.len()),
        ensures
            final(self).wf(),
            final(self)@ == old(self)@.vmov(d, s, k, w),
    {
        self.mvex(1, w, w, 0x28, d, 0, s, k, 0, None);
    }

    /// vpxord d{k}, d, d (MVEX.NDS.512.66.0F.W0 EF /r); vpxorq for W1.
    pub fn zero(&mut self, d: u8, k: u8, w: u8)
        requires
            old(self).wf(),
        ensures
            final(self).wf(),
            final(self)@ == old(self)@.zero(d, k, w),
    {
        self.mvex(1, 1, w, 0xEF, d, d, Rm::Reg(d), k, 0, None);
    }

    /// Zero the dword lanes selected by `mask`.
    pub fn zero_lanes(&mut self, d: u8, mask: u16)
        requires
            old(self).wf(),
        ensures
            final(self).wf(),
            final(self)@ == old(self)@.zero_lanes(d, mask),
    {
        if mask != 0 {
            let k: u8 = self.mask_imm(mask);
            self.zero(d, k, 0);
        }
    }

    /// vpshufd d{k}, s, imm (MVEX.512.66.0F.W0 70 /r ib).
    pub fn vpshufd(&mut self, d: u8, s: Rm, imm: u8, k: u8)
        requires
            old(self).wf(),
            s.within(old(self)@.consts.len()),
        ensures
            final(self).wf(),
            final(self)@ == old(self)@.vpshufd(d, s, imm, k),
    {
        self.mvex(1, 1, 0, 0x70, d, 0, s, k, 0, Some(imm));
    }

    /// vpermf32x4 d{k}, s, imm (MVEX.512.66.0F3A.W0 07 /r ib).
    pub fn vpermf32x4(&mut self, d: u8, s: Rm, imm: u8, k: u8)
        requires
            old(self).wf(),
            s.within(old(self)@.consts.len()),
        ensures
            final(self).wf(),
            final(self)@ == old(self)@.vpermf32x4(d, s, imm, k),
    {
        self.mvex(3, 1, 0, 0x07, d, 0, s, k, 0, Some(imm));
    }

    /// vpermd d{k}, idx, s (MVEX.NDS.512.66.0F38.W0 36 /r).
    pub fn vpermd(&mut self, d: u8, idx: u8, s: Rm, k: u8)
        requires
            old(self).wf(),
            s.within(old(self)@.consts.len()),
        ensures
            final(self).wf(),
            final(self)@ == old(self)@.vpermd(d, idx, s, k),
    {
        self.mvex(2, 1, 0, 0x36, d, idx, s, k, 0, None);
    }

    /// valignd d{k}, s1, s2, imm (MVEX.NDS.512.66.0F3A.W0 03 /r ib).
    pub fn valignd(&mut self, d: u8, s1: u8, s2: Rm, imm: u8, k: u8)
        requires
            old(self).wf(),
            s2.within(old(self)@.consts.len()),
        ensures
            final(self).wf(),
            final(self)@ == old(self)@.valignd(d, s1, s2, imm, k),
    {
        self.mvex(3, 1, 0, 0x03, d, s1, s2, k, 0, Some(imm));
    }

    /// A three-operand 0F38 integer op (vpmulld 40, vpsrlvd 45, vpsravd 46,
    /// vpsllvd 47, vpminsd 39, vpminud 3B, vpmaxsd 3D, vpmaxud 3F, vpmulhud 86, vpmulhd 87).
    pub fn i38(&mut self, op: u8, d: u8, s1: u8, s2: Rm, k: u8)
        requires
            old(self).wf(),
            s2.within(old(self)@.consts.len()),
        ensures
            final(self).wf(),
            final(self)@ == old(self)@.i38(op, d, s1, s2, k),
    {
        self.mvex(2, 1, 0, op, d, s1, s2, k, 0, None);
    }

    /// A three-operand 0F integer op (vpaddd FE, vpsubd FA, vpandd DB,
    /// vpandnd DF, vpord EB, vpxord EF); W1 for the q forms of the bitwise ones.
    pub fn i0f(&mut self, op: u8, d: u8, s1: u8, s2: Rm, k: u8, w: u8)
        requires
            old(self).wf(),
            s2.within(old(self)@.consts.len()),
        ensures
            final(self).wf(),
            final(self)@ == old(self)@.i0f(op, d, s1, s2, k, w),
    {
        self.mvex(1, 1, w, op, d, s1, s2, k, 0, None);
    }

    /// vpslld /6, vpsrld /2, vpsrad /4 by immediate (MVEX.NDD.512.66.0F.W0 72 /n ib).
    pub fn shift_imm(&mut self, which: u8, d: u8, s: Rm, n: u8, k: u8)
        requires
            old(self).wf(),
            s.within(old(self)@.consts.len()),
        ensures
            final(self).wf(),
            final(self)@ == old(self)@.shift_imm(which, d, s, n, k),
    {
        self.mvex(1, 1, 0, 0x72, which, d, s, k, 0, Some(n));
    }

    /// Compare into a mask: k2{k1}, s1, s2, pred (MVEX.NDS.512.0F.W0 C2 /r
    /// ib); doubles with 66 and W1.
    pub fn compare(&mut self, kd: u8, s1: u8, s2: Rm, pred: u8, k: u8, w: u8)
        requires
            old(self).wf(),
            s2.within(old(self)@.consts.len()),
        ensures
            final(self).wf(),
            final(self)@ == old(self)@.compare(kd, s1, s2, pred, k, w),
    {
        self.mvex(1, w, w, 0xC2, kd, s1, s2, k, 0, Some(pred));
    }

    /// The unaligned load pair: vloadunpackld/hd (MVEX.512.0F38.W0 D0/D4,
    /// D1/D5 for the float forms that take the float16 up-conversion),
    /// each masked, the high half at +64.
    pub fn load_unaligned(&mut self, d: u8, m: MemOp, k: u8, float: bool, sss: u8)
        requires
            old(self).wf(),
            m.disp + 64 <= i64::MAX,
        ensures
            final(self).wf(),
            final(self)@ == old(self)@.load_unaligned(d, m, k, float, sss),
    {
        let lo: u8 = if float {
            0xD1
        } else {
            0xD0
        };
        self.mvex(2, 0, 0, lo, d, 0, Rm::Mem(m), k, sss, None);
        self.mvex(2, 0, 0, lo + 4, d, 0, Rm::Mem(m.plus(64)), k, sss, None);
    }

    /// The unaligned store pair: vpackstoreld/hd (MVEX.512.66.0F38.W0
    /// D0/D4; D1/D5 float forms with the float16 down-conversion), masked.
    pub fn store_unaligned(&mut self, m: MemOp, s: u8, k: u8, float: bool, sss: u8)
        requires
            old(self).wf(),
            m.disp + 64 <= i64::MAX,
        ensures
            final(self).wf(),
            final(self)@ == old(self)@.store_unaligned(m, s, k, float, sss),
    {
        let lo: u8 = if float {
            0xD1
        } else {
            0xD0
        };
        self.mvex(2, 1, 0, lo, s, 0, Rm::Mem(m), k, sss, None);
        self.mvex(2, 1, 0, lo + 4, s, 0, Rm::Mem(m.plus(64)), k, sss, None);
    }

    /// A 16-byte block into every block (vbroadcasti32x4, MVEX.512.66.0F38.W0
    /// 5A /r) or a 32-byte half into both halves (vbroadcasti64x4, W1 5B).
    pub fn load_block(&mut self, d: u8, m: Rm, k: u8, half: bool)
        requires
            old(self).wf(),
            m.within(old(self)@.consts.len()),
        ensures
            final(self).wf(),
            final(self)@ == old(self)@.load_block(d, m, k, half),
    {
        if half {
            self.mvex(2, 1, 1, 0x5B, d, 0, m, k, 0, None);
        } else {
            self.mvex(2, 1, 0, 0x5A, d, 0, m, k, 0, None);
        }
    }

    /// vbroadcastss d{k}, m32 (MVEX.512.66.0F38.W0 18 /r); vbroadcastsd W1 19.
    pub fn broadcast_load(&mut self, d: u8, m: Rm, k: u8, w: u8)
        requires
            old(self).wf(),
            m.within(old(self)@.consts.len()),
        ensures
            final(self).wf(),
            final(self)@ == old(self)@.broadcast_load(d, m, k, w),
    {
        self.mvex(2, 1, w, 0x18 | w, d, 0, m, k, 0, None);
    }

    /// The scratch mask set to the dword-lane form of the qword-lane mask
    /// in `k` (bit i to bits 2i and 2i+1): the unaligned pairs move
    /// dwords, since qword elements would need 8-byte alignment that
    /// AVX-512 does not require.
    pub fn qmask_to_dmask(&mut self, k: u8, limit: u16) -> (ks: u8)
        requires
            old(self).wf(),
        ensures
            final(self).wf(),
            final(self)@ == old(self)@.qmask_to_dmask(k, limit),
            ks == old(self)@.kscr,
    {
        let ks: u8 = self.k();
        self.flags();
        self.rcx();
        self.kmov_r_k(0, k);
        let l: u32 = limit as u32;
        let b: [u8; 49] = [
            // movzx eax, al; mov ecx, eax; shl ecx, 4; or eax, ecx; and eax, 0x0f0f
            0x0f, 0xb6, 0xc0, 0x89, 0xc1, 0xc1, 0xe1, 0x04, 0x09, 0xc8, 0x25, 0x0f, 0x0f, 0x00, 0x00,
            // mov ecx, eax; shl ecx, 2; or eax, ecx; and eax, 0x3333
            0x89, 0xc1, 0xc1, 0xe1, 0x02, 0x09, 0xc8, 0x25, 0x33, 0x33, 0x00, 0x00,
            // mov ecx, eax; shl ecx, 1; or eax, ecx; and eax, 0x5555
            0x89, 0xc1, 0xd1, 0xe1, 0x09, 0xc8, 0x25, 0x55, 0x55, 0x00, 0x00,
            // mov ecx, eax; shl ecx, 1; or eax, ecx; and eax, limit
            0x89, 0xc1, 0xd1, 0xe1, 0x09, 0xc8, 0x25,
            (l & 0xff) as u8, ((l >> 8) & 0xff) as u8, ((l >> 16) & 0xff) as u8, ((l >> 24) & 0xff) as u8,
        ];
        assert(b@ =~= prog::spread_bits(limit));
        self.raw(&b);
        self.kmov_k_r(ks, 0);
        ks
    }

    /// `mov r, [fs:scratch+off]` after everything is restored: for a
    /// general register the sequence produces (rax included).
    pub fn gpr_result(&mut self, r: u8, wide: bool, off: i32)
        requires
            old(self).wf(),
        ensures
            final(self).wf(),
            final(self)@ == old(self)@.gpr_result(r, wide, off),
    {
        let ghost s = Step::Tail { r, wide, off };
        proof {
            reveal(Prog::sound);
            lemma_lowered_push(self@.scratch, self@.kscr, self@.steps, s);
        }
        self.tail.push((r, wide, off));
        self.prog = Ghost(self.prog@.step(s));
    }

    /// A legacy instruction with a memory operand, eax in ModRM.reg. The
    /// base and the index are below r8: no REX prefix is emitted.
    pub fn legacy(&mut self, opcodes: &[u8], m: MemOp)
        requires
            old(self).wf(),
        ensures
            final(self).wf(),
            final(self)@ == old(self)@.legacy(opcodes@, m),
    {
        let ghost s = Step::Legacy { opcodes: opcodes@, m };
        proof {
            reveal(Prog::sound);
            lemma_lowered_push(self@.scratch, self@.kscr, self@.steps, s);
        }
        self.recover(m);
        let ghost before = self.t.seq@;
        self.emit(opcodes);
        self.emit_mem(0, m);
        assert(self.t.seq@ =~= before + (opcodes@ + code::mem_bytes(0, m)));
        if let Some(target) = m.rip {
            let insn_end: usize = self.t.seq.len();
            self.t.fixups.push(
                Fixup { disp_at: insn_end - 4, insn_end, what: FixupKind::Rip(target) },
            );
        }
        self.prog = Ghost(self.prog@.step(s));
    }

    /// An x87 or integer instruction with one `[fs:scratch+off]` memory
    /// operand: `opcodes` then ModRM with `reg` as the extension.
    pub fn fs_op(&mut self, opcodes: &[u8], reg: u8, off: i32)
        requires
            old(self).wf(),
            opcodes@.len() > 1 ==> opcodes@[0] != 0x66,
        ensures
            final(self).wf(),
            final(self)@ == old(self)@.fs_op(opcodes@, reg, off),
    {
        let ghost s = Step::FsOp { opcodes: opcodes@, reg, off };
        proof {
            reveal(Prog::sound);
            lemma_lowered_push(self@.scratch, self@.kscr, self@.steps, s);
        }
        let ghost before = self.t.seq@;
        self.t.seq.push(0x64);
        bits::push_all(&mut self.t.seq, opcodes);
        self.t.seq.push(0x04 | (reg << 3));
        self.t.seq.push(0x25);
        bits::push_le32(&mut self.t.seq, self.scratch.wrapping_add(off) as u32);
        assert(self.t.seq@ =~= before + code::fs_op_bytes(self.scratch, opcodes@, reg, off));
        self.prog = Ghost(self.prog@.step(s));
    }

    /// `mov [fs:scratch+off], ax`.
    pub fn fs_store_ax(&mut self, off: i32)
        requires
            old(self).wf(),
        ensures
            final(self).wf(),
            final(self)@ == old(self)@.fs_op(seq![0x66, 0x89], 0, off),
    {
        let ghost opcodes: Seq<u8> = seq![0x66, 0x89];
        let ghost s = Step::FsOp { opcodes, reg: 0, off };
        proof {
            reveal(Prog::sound);
            lemma_lowered_push(self@.scratch, self@.kscr, self@.steps, s);
        }
        let ghost before = self.t.seq@;
        self.t.seq.push(0x66);
        self.t.seq.push(0x64);
        self.t.seq.push(0x89);
        let reg: u8 = 0;
        self.t.seq.push(0x04 | (reg << 3));
        self.t.seq.push(0x25);
        bits::push_le32(&mut self.t.seq, self.scratch.wrapping_add(off) as u32);
        assert(self.t.seq@ =~= before + code::fs_op_bytes(self.scratch, opcodes, 0, off));
        self.prog = Ghost(self.prog@.step(s));
    }

    /// Restore everything and hand the sequence over.
    pub fn finish(self) -> (t: Thunk)
        requires
            self.wf(),
        ensures
            t.body() == self@.body(),
            t.constants() == self@.consts,
            self@.sound(),
    {
        proof {
            reveal(Prog::sound);
        }
        let mut em = self;
        let ghost low = em@.low();
        let ghost temps = em.temps@;
        let ghost scratch = em.scratch;
        let ghost consts = em@.consts;
        let mut n: usize = em.temps.len();
        assert(temps.take(n as int) =~= temps);
        while n > 0
            invariant
                n <= em.temps@.len() <= ZMM_SLOTS,
                em.temps@ == temps,
                em.scratch == scratch,
                em.tail@ == low.tail,
                em.kscr == self@.kscr,
                em.k_used == low.k,
                em.rax_used == low.rax,
                em.rcx_used == low.rcx,
                em.flags_used == low.flags,
                em.t.constants() == consts,
                prog::reloaded(em.t.body(), scratch, temps.take(n as int)) == prog::reloaded(
                    low.body,
                    scratch,
                    temps,
                ),
            decreases n,
        {
            let ghost b = em.t.body();
            let slot: usize = n - 1;
            let z: u8 = em.temps[slot];
            em.emit_mvex(
                Mvex {
                    map: 1,
                    pp: 0,
                    w: 0,
                    op: 0x28,
                    reg: z,
                    vvvv: 0,
                    rm: Rm::Fs(64 * (slot as i32)),
                    k: 0,
                    sss: 0,
                    imm: None,
                },
            );
            proof {
                assert(temps.take(n as int).drop_last() =~= temps.take(n - 1));
                assert(temps.take(n as int).last() == z);
            }
            n = slot;
        }
        assert(temps.take(0) =~= seq![]);
        if em.flags_used {
            em.emit_gpr(0, true, S_FLAGS, false);
            let add_sahf: [u8; 3] = [0x04, 0x7f, 0x9e];
            assert(add_sahf@ =~= seq![0x04u8, 0x7f, 0x9e]);
            em.emit(&add_sahf);
        }
        if em.k_used {
            em.emit_gpr(0, true, S_K, false);
            em.emit_vexk(0x92, em.kscr, 0);
        }
        if em.rcx_used {
            em.emit_gpr(1, true, S_RCX, false);
        }
        if em.rax_used {
            em.emit_gpr(0, true, S_RAX, false);
        }
        let ghost b = em.t.body();
        let mut i: usize = 0;
        assert(low.tail.take(0) =~= seq![]);
        while i < em.tail.len()
            invariant
                i <= em.tail@.len(),
                em.tail@ == low.tail,
                em.scratch == scratch,
                em.t.constants() == consts,
                em.t.body() == prog::tail_loaded(b, scratch, low.tail.take(i as int)),
            decreases em.tail@.len() - i,
        {
            let (r, wide, off) = em.tail[i];
            em.emit_gpr(r, wide, off, false);
            proof {
                assert(low.tail.take(i + 1).drop_last() =~= low.tail.take(i as int));
                assert(low.tail.take(i + 1).last() == (r, wide, off));
            }
            i = i + 1;
        }
        assert(low.tail.take(low.tail.len() as int) =~= low.tail);
        em.t
    }
}

} // verus!
