//! Conversions: between integers and floats, between float widths, and
//! the widening of packed integers.
use crate::xlate::code;
use crate::xlate::code::{MemOp, Rewrite, Rm, Unsupported, S_CW, S_CW2, S_XFER};
use crate::xlate::em::Em;
use crate::xlate::ev;
use crate::xlate::ev::{Ev, Outcome};
use crate::xlate::insn;
use crate::xlate::insn::Decoded;
use crate::xlate::mnemonic as mn;
use crate::xlate::prog;
use crate::xlate::prog::{Prog, Step};
use vstd::prelude::*;

verus! {

/// 2^31 as a float and as a double, by their bits.
pub const F32_TWO31: u32 = 0x4f00_0000;
pub const F64_TWO31: u64 = 0x41e0_0000_0000_0000;
/// The integer indefinite, which AVX-512 gives for NaN and overflow.
pub const INDEFINITE: u32 = 0x8000_0000;

impl MemOp {
    /// Whether the base or the index is one of r8-r15, which a legacy
    /// instruction names through a REX prefix.
    #[verifier::allow_in_spec]
    pub fn needs_rex(self) -> bool
        returns
            (self.base matches Some(b) && b >= 8) || (self.index matches Some(i) && i >= 8),
    {
        (match self.base {
            Some(b) => b >= 8,
            None => false,
        }) || (match self.index {
            Some(i) => i >= 8,
            None => false,
        })
    }
}

/// The two ways a converted float goes wrong, made the integer indefinite:
/// where the source is not less than 2^31 (NaN included).
pub open spec fn indefinite_above(p: Prog, r: u8, s: u8, from_double: bool) -> Prog {
    let big = if from_double { prog::splat64(F64_TWO31) } else { prog::splat32(F32_TWO31) };
    let i = p.index_of(big);
    let p = p.constant(big)
        .step(Step::K)
        .compare(p.kscr, s, Rm::Const(i), 5, 0, if from_double { 1 } else { 0 });
    let ind = p.index_of(prog::splat32(INDEFINITE));
    p.constant(prog::splat32(INDEFINITE)).vmov(r, Rm::Const(ind), p.kscr, 0)
}

impl Em {
    /// Lanes of `r` whose source in `s` is not less than 2^31 (unordered
    /// included) become 0x80000000.
    fn indefinite_above(&mut self, r: u8, s: u8, from_double: bool)
        requires
            old(self).wf(),
        ensures
            final(self).wf(),
            final(self)@ == indefinite_above(old(self)@, r, s, from_double),
    {
        let big: usize = if from_double {
            self.const_qw(F64_TWO31)
        } else {
            self.const_dw(F32_TWO31)
        };
        let kc: u8 = self.k();
        let w: u8 = if from_double { 1 } else { 0 };
        self.compare(kc, s, Rm::Const(big), 5, 0, w);
        let ind: usize = self.const_dw(INDEFINITE);
        self.vmov(r, Rm::Const(ind), kc, 0);
    }
}

/// Whether `m` converts an integer to a float.
#[verifier::allow_in_spec]
pub fn from_int(m: u16) -> bool
    returns
        m == mn::VCVTSI2SS || m == mn::VCVTSI2SD || m == mn::VCVTUSI2SS || m == mn::VCVTUSI2SD,
{
    m == mn::VCVTSI2SS || m == mn::VCVTSI2SD || m == mn::VCVTUSI2SS || m == mn::VCVTUSI2SD
}

/// Whether `m` converts a float to a signed or unsigned integer.
#[verifier::allow_in_spec]
pub fn to_int(m: u16) -> bool
    returns
        to_unsigned(m) || m == mn::VCVTTSS2SI || m == mn::VCVTSS2SI || m == mn::VCVTTSD2SI || m
            == mn::VCVTSD2SI,
{
    to_unsigned(m) || m == mn::VCVTTSS2SI || m == mn::VCVTSS2SI || m == mn::VCVTTSD2SI || m
        == mn::VCVTSD2SI
}

/// Whether `m` converts a float to an unsigned integer.
#[verifier::allow_in_spec]
pub fn to_unsigned(m: u16) -> bool
    returns
        m == mn::VCVTTSS2USI || m == mn::VCVTSS2USI || m == mn::VCVTTSD2USI || m == mn::VCVTSD2USI,
{
    m == mn::VCVTTSS2USI || m == mn::VCVTSS2USI || m == mn::VCVTTSD2USI || m == mn::VCVTSD2USI
}

/// Whether `m` truncates to an integer.
#[verifier::allow_in_spec]
pub fn truncates(m: u16) -> bool
    returns
        m == mn::VCVTTSS2SI || m == mn::VCVTTSD2SI || m == mn::VCVTTSS2USI || m == mn::VCVTTSD2USI,
{
    m == mn::VCVTTSS2SI || m == mn::VCVTTSD2SI || m == mn::VCVTTSS2USI || m == mn::VCVTTSD2USI
}

/// Whether `m` converts a double to an integer.
#[verifier::allow_in_spec]
pub fn from_double(m: u16) -> bool
    returns
        m == mn::VCVTTSD2SI || m == mn::VCVTSD2SI || m == mn::VCVTTSD2USI || m == mn::VCVTSD2USI,
{
    m == mn::VCVTTSD2SI || m == mn::VCVTSD2SI || m == mn::VCVTTSD2USI || m == mn::VCVTSD2USI
}

/// Whether the memory operand of an integer conversion is a qword.
#[verifier::allow_in_spec]
pub fn qword_sized(size: u8) -> bool
    returns
        size == insn::SIZE_UINT64 || size == insn::SIZE_INT64,
{
    size == insn::SIZE_UINT64 || size == insn::SIZE_INT64
}

/// The opcode that loads the integer `m` into rax: `mov rax, [m]`,
/// `mov eax, [m]`, which zero-extends, or `movsxd rax, [m]`.
pub open spec fn int_load(wide: bool, unsigned: bool) -> Seq<u8> {
    if wide {
        seq![0x48, 0x8b]
    } else if unsigned {
        seq![0x8b]
    } else {
        seq![0x48, 0x63]
    }
}

/// A 32-bit general register into rax: zero-extended (`mov eax, r32`, from
/// eax itself too) or sign-extended (`movsxd rax, r32`).
pub open spec fn int_extend(r: u8, unsigned: bool) -> Seq<u8> {
    if !unsigned {
        seq![0x48u8 | ((r >> 3) & 1), 0x63, 0xc0u8 | (r & 7)]
    } else if r >= 8 {
        seq![0x41, 0x8b, 0xc0u8 | (r & 7)]
    } else {
        seq![0x8b, 0xc0u8 | (r & 7)]
    }
}

/// An integer to a float: the integer as a qword in the scratch area,
/// `fild`, and `fstp` to the width (one rounding, from an exact value),
/// then lane 0.
pub open spec fn from_int_outcome(insn: Decoded, ev: Ev, scratch: i32) -> Outcome {
    let m = insn.head.mnemonic;
    let w: u8 = if m == mn::VCVTSI2SD || m == mn::VCVTUSI2SD { 1 } else { 0 };
    let unsigned = m == mn::VCVTUSI2SS || m == mn::VCVTUSI2SD;
    let mem = MemOp::spec_of(insn);
    let reg = insn::gpr_of(insn.reg(2));
    let wide = if mem is Some { qword_sized(insn.mem.size) } else { (reg->0).1 };
    if mem is None && reg is None {
        Outcome::Refused("conversion source is not a general register"@)
    } else if unsigned && wide {
        Outcome::Refused("unsigned 64-bit integer to float: not expressed yet"@)
    } else if mem matches Some(mm) && mm.needs_rex() {
        Outcome::Refused("a memory operand addressed through r8 to r15: not expressed yet"@)
    } else {
        let p = Prog::start(scratch, insn);
        let p = match mem {
            Some(mm) => p
                .step(Step::Rax)
                .legacy(int_load(wide, unsigned), mm)
                .gpr_scratch(0, true, S_XFER, true),
            None => if wide {
                p.gpr_scratch((reg->0).0, true, S_XFER, true)
            } else {
                p
                    .step(Step::Rax)
                    .raw(int_extend((reg->0).0, unsigned))
                    .gpr_scratch(0, true, S_XFER, true)
            },
        };
        Outcome::Thunk(
            p
                .fs_op(seq![0xdf], 5, S_XFER)
                .fs_op(seq![if w == 1 { 0xddu8 } else { 0xd9u8 }], 3, S_XFER)
                .mask_imm(1)
                .broadcast_load(ev.reg, Rm::Fs(S_XFER), p.kscr, w)
                .scalar_rest(ev.reg, ev.vvvv, w),
        )
    }
}

/// The register a scalar float is in, once it is staged.
pub open spec fn scalar_source(p: Prog, insn: Decoded, ev: Ev) -> u8 {
    if insn.has_mem() {
        p.next_temp()
    } else {
        ev.rm
    }
}

/// A scalar float brought into a register: staged from memory where it is
/// there.
pub open spec fn scalar_staged(p: Prog, insn: Decoded, w: u8) -> Prog {
    match MemOp::spec_of(insn) {
        Some(mm) => p.temp().broadcast_load(p.next_temp(), Rm::Mem(mm), 0, w),
        None => p,
    }
}

/// A float to an integer through x87: exact, with the integer indefinite
/// for NaN and overflow; the control word is set to truncate around the
/// store where the instruction truncates.
pub open spec fn x87_to_int(p: Prog, s: u8, double: bool, truncate: bool) -> Prog {
    let t = p.next_temp();
    let p = p
        .temp()
        .vmov(t, Rm::Reg(s), 0, if double { 1 } else { 0 })
        .mvex(2, 1, 0, 0xD0, t, 0, Rm::Fs(S_XFER), 0, 0, None)
        .fs_op(seq![if double { 0xddu8 } else { 0xd9u8 }], 0, S_XFER);
    if truncate {
        p
            .step(Step::Flags)
            .fs_op(seq![0xd9], 7, S_CW)
            .fs_op(seq![0x0f, 0xb7], 0, S_CW)
            .raw(seq![0x80, 0xcc, 0x0c])
            .fs_op(seq![0x66, 0x89], 0, S_CW2)
            .fs_op(seq![0xd9], 5, S_CW2)
            .fs_op(seq![0xdf], 7, S_XFER)
            .fs_op(seq![0xd9], 5, S_CW)
    } else {
        p.fs_op(seq![0xdf], 7, S_XFER)
    }
}

/// A float to a signed 32-bit integer: the card's fixed-point conversion
/// with the indefinite fix-up, lane 0 packed into the scratch area.
pub open spec fn fixpoint_to_int(p: Prog, s: u8, double: bool, truncate: bool) -> Prog {
    let t = p.next_temp();
    let imm: Option<u8> = Some(if truncate { 3 } else { 0 });
    let p = p.temp();
    let p = if double {
        p.mvex(3, 3, 1, 0xE6, t, 0, Rm::Reg(s), 0, 0, imm)
    } else {
        p.mvex(3, 1, 0, 0xCB, t, 0, Rm::Reg(s), 0, 0, imm)
    };
    indefinite_above(p, t, s, double)
        .mask_imm(1)
        .mvex(2, 1, 0, 0xD0, t, 0, Rm::Fs(S_XFER), p.kscr, 0, None)
}

/// What a conversion of a float to an integer becomes.
pub open spec fn to_int_outcome(insn: Decoded, ev: Ev, scratch: i32) -> Outcome {
    let m = insn.head.mnemonic;
    let double = from_double(m);
    match insn::gpr_of(insn.reg(0)) {
        None => Outcome::Refused("conversion destination is not a general register"@),
        Some(g) => {
            let p = Prog::start(scratch, insn);
            let s = scalar_source(p, insn, ev);
            let p = scalar_staged(p, insn, if double { 1 } else { 0 });
            Outcome::Thunk(
                if g.1 || to_unsigned(m) {
                    x87_to_int(p, s, double, truncates(m)).gpr_result(g.0, g.1, S_XFER)
                } else {
                    fixpoint_to_int(p, s, double, truncates(m)).gpr_result(g.0, false, S_XFER)
                },
            )
        },
    }
}

/// A float to the other float width: vcvtps2pd or vcvtpd2ps, lane 0.
pub open spec fn float_to_float(insn: Decoded, ev: Ev, scratch: i32) -> Prog {
    let widens = insn.head.mnemonic == mn::VCVTSS2SD;
    let p = Prog::start(scratch, insn);
    let s = scalar_source(p, insn, ev);
    let p = scalar_staged(p, insn, if widens { 0 } else { 1 });
    let r = p.next_temp();
    if widens {
        p
            .temp()
            .mvex(1, 0, 0, 0x5A, r, 0, Rm::Reg(s), 0, 0, None)
            .scalar_result(ev.reg, r, ev.vvvv, 1)
    } else {
        p
            .temp()
            .mvex(1, 1, 1, 0x5A, r, 0, Rm::Reg(s), 0, 0, None)
            .scalar_result(ev.reg, r, ev.vvvv, 0)
    }
}

/// What a scalar conversion becomes.
pub open spec fn scalar_cvt_outcome(insn: Decoded, ev: Ev, scratch: i32) -> Outcome {
    let m = insn.head.mnemonic;
    if ev.b {
        Outcome::Refused("scalar conversion with embedded rounding: not expressed yet"@)
    } else if from_int(m) {
        from_int_outcome(insn, ev, scratch)
    } else if to_int(m) {
        to_int_outcome(insn, ev, scratch)
    } else {
        Outcome::Thunk(float_to_float(insn, ev, scratch))
    }
}

impl Em {
    /// A scalar float as a register, staged from memory where it is there.
    fn scalar_staged(&mut self, insn: &Decoded, ev: &Ev, w: u8) -> (s: u8)
        requires
            old(self).wf(),
            insn.operable(),
            old(self)@.temps.len() < code::ZMM_SLOTS,
        ensures
            final(self).wf(),
            final(self)@ == scalar_staged(old(self)@, *insn, w),
            s == scalar_source(old(self)@, *insn, *ev),
    {
        match MemOp::of(insn) {
            Some(mm) => {
                let t: u8 = self.temp();
                self.broadcast_load(t, Rm::Mem(mm), 0, w);
                t
            },
            None => ev.rm,
        }
    }

    /// An `[fs:scratch+off]` instruction with a one-byte opcode.
    fn fs_op1(&mut self, opcode: u8, reg: u8, off: i32)
        requires
            old(self).wf(),
        ensures
            final(self).wf(),
            final(self)@ == old(self)@.fs_op(seq![opcode], reg, off),
    {
        let b: [u8; 1] = [opcode];
        assert(b@ =~= seq![opcode]);
        self.fs_op(&b, reg, off);
    }

    fn x87_to_int(&mut self, s: u8, double: bool, truncate: bool)
        requires
            old(self).wf(),
            old(self)@.temps.len() < code::ZMM_SLOTS,
        ensures
            final(self).wf(),
            final(self)@ == x87_to_int(old(self)@, s, double, truncate),
    {
        let t: u8 = self.temp();
        let w: u8 = if double { 1 } else { 0 };
        self.vmov(t, Rm::Reg(s), 0, w);
        self.mvex(2, 1, 0, 0xD0, t, 0, Rm::Fs(S_XFER), 0, 0, None);  // the lane(s) to the slot
        // fld qword or dword
        let fld: u8 = if double { 0xdd } else { 0xd9 };
        self.fs_op1(fld, 0, S_XFER);
        if truncate {
            self.flags();
            self.fs_op1(0xd9, 7, S_CW);  // fnstcw
            let movzx: [u8; 2] = [0x0f, 0xb7];
            assert(movzx@ =~= seq![0x0fu8, 0xb7]);
            self.fs_op(&movzx, 0, S_CW);  // movzx eax, word [cw]
            let or_ah: [u8; 3] = [0x80, 0xcc, 0x0c];
            assert(or_ah@ =~= seq![0x80u8, 0xcc, 0x0c]);
            self.raw(&or_ah);  // or ah, 0x0c: round toward zero
            self.fs_store_ax(S_CW2);  // mov [cw2], ax
            self.fs_op1(0xd9, 5, S_CW2);  // fldcw
            self.fs_op1(0xdf, 7, S_XFER);  // fistp qword
            self.fs_op1(0xd9, 5, S_CW);  // fldcw back
        } else {
            self.fs_op1(0xdf, 7, S_XFER);  // fistp qword
        }
    }

    fn fixpoint_to_int(&mut self, s: u8, double: bool, truncate: bool)
        requires
            old(self).wf(),
            old(self)@.temps.len() < code::ZMM_SLOTS,
        ensures
            final(self).wf(),
            final(self)@ == fixpoint_to_int(old(self)@, s, double, truncate),
    {
        let t: u8 = self.temp();
        let imm: u8 = if truncate { 3 } else { 0 };
        if double {
            self.mvex(3, 3, 1, 0xE6, t, 0, Rm::Reg(s), 0, 0, Some(imm));  // vcvtfxpntpd2dq
        } else {
            self.mvex(3, 1, 0, 0xCB, t, 0, Rm::Reg(s), 0, 0, Some(imm));  // vcvtfxpntps2dq
        }
        self.indefinite_above(t, s, double);
        let k: u8 = self.mask_imm(1);
        self.mvex(2, 1, 0, 0xD0, t, 0, Rm::Fs(S_XFER), k, 0, None);
    }

    /// The integer loaded from memory into rax.
    fn int_load(&mut self, m: MemOp, wide: bool, unsigned: bool)
        requires
            old(self).wf(),
        ensures
            final(self).wf(),
            final(self)@ == old(self)@.legacy(int_load(wide, unsigned), m),
    {
        if wide {
            let b: [u8; 2] = [0x48, 0x8b];  // mov rax, [m]
            assert(b@ =~= int_load(wide, unsigned));
            self.legacy(&b, m);
        } else if unsigned {
            let b: [u8; 1] = [0x8b];  // mov eax, [m] (zero-extends)
            assert(b@ =~= int_load(wide, unsigned));
            self.legacy(&b, m);
        } else {
            let b: [u8; 2] = [0x48, 0x63];  // movsxd rax, [m]
            assert(b@ =~= int_load(wide, unsigned));
            self.legacy(&b, m);
        }
    }

    /// A 32-bit general register extended into rax.
    fn int_extend(&mut self, r: u8, unsigned: bool)
        requires
            old(self).wf(),
        ensures
            final(self).wf(),
            final(self)@ == old(self)@.raw(int_extend(r, unsigned)),
    {
        if !unsigned {
            let b: [u8; 3] = [0x48 | ((r >> 3) & 1), 0x63, 0xc0 | (r & 7)];
            assert(b@ =~= int_extend(r, unsigned));
            self.raw(&b);
        } else if r >= 8 {
            let b: [u8; 3] = [0x41, 0x8b, 0xc0 | (r & 7)];
            assert(b@ =~= int_extend(r, unsigned));
            self.raw(&b);
        } else {
            let b: [u8; 2] = [0x8b, 0xc0 | (r & 7)];
            assert(b@ =~= int_extend(r, unsigned));
            self.raw(&b);
        }
    }
}

fn cvt_from_int(insn: &Decoded, ev: &Ev, scratch: i32) -> (res: Result<Rewrite, Unsupported>)
    requires
        insn.operable(),
    ensures
        from_int_outcome(*insn, *ev, scratch).is(*insn, res),
{
    let m: u16 = insn.head.mnemonic;
    let to_double = m == mn::VCVTSI2SD || m == mn::VCVTUSI2SD;
    let w: u8 = if to_double { 1 } else { 0 };
    let unsigned = m == mn::VCVTUSI2SS || m == mn::VCVTUSI2SD;
    let mem = MemOp::of(insn);
    let reg = insn::gpr(insn.op_register(2));
    if mem.is_none() && reg.is_none() {
        return Err(code::refuse(insn, "conversion source is not a general register"));
    }
    let wide = match (mem, reg) {
        (None, Some((_, wide))) => wide,
        _ => qword_sized(insn.mem.size),
    };
    if unsigned && wide {
        return Err(code::refuse(insn, "unsigned 64-bit integer to float: not expressed yet"));
    }
    let mut em = Em::new(scratch, insn);
    // The integer to the scratch slot as a qword: sign- or zero-extended.
    match (mem, reg) {
        (None, Some((r, _))) => {
            if wide {
                em.gpr_scratch(r, true, S_XFER, true);
            } else {
                em.rax();
                em.int_extend(r, unsigned);
                em.gpr_scratch(0, true, S_XFER, true);
            }
        },
        (Some(mm), _) => {
            if mm.needs_rex() {
                return Err(
                    code::refuse(
                        insn,
                        "a memory operand addressed through r8 to r15: not expressed yet",
                    ),
                );
            }
            em.rax();
            em.int_load(mm, wide, unsigned);
            em.gpr_scratch(0, true, S_XFER, true);
        },
        (None, None) => {},
    }
    em.fs_op1(0xdf, 5, S_XFER);  // fild qword
    let fstp: u8 = if to_double { 0xdd } else { 0xd9 };
    em.fs_op1(fstp, 3, S_XFER);  // fstp qword or dword
    let k: u8 = em.mask_imm(1);
    em.broadcast_load(ev.reg, Rm::Fs(S_XFER), k, w);
    em.scalar_rest(ev.reg, ev.vvvv, w);
    Ok(Rewrite::Thunk(em.finish()))
}

fn cvt_to_scalar_int(insn: &Decoded, ev: &Ev, scratch: i32) -> (res: Result<Rewrite, Unsupported>)
    requires
        insn.operable(),
    ensures
        to_int_outcome(*insn, *ev, scratch).is(*insn, res),
{
    let m: u16 = insn.head.mnemonic;
    let double = from_double(m);
    let w: u8 = if double { 1 } else { 0 };
    match insn::gpr(insn.op_register(0)) {
        None => Err(code::refuse(insn, "conversion destination is not a general register")),
        Some((r, wide)) => {
            let mut em = Em::new(scratch, insn);
            let s: u8 = em.scalar_staged(insn, ev, w);
            if wide || to_unsigned(m) {
                em.x87_to_int(s, double, truncates(m));
                // A 32-bit unsigned result is the low dword of the qword.
                em.gpr_result(r, wide, S_XFER);
            } else {
                em.fixpoint_to_int(s, double, truncates(m));
                em.gpr_result(r, false, S_XFER);
            }
            Ok(Rewrite::Thunk(em.finish()))
        },
    }
}

/// The scalar conversions between general registers and floats, and
/// between float widths. Integer to float goes through x87 (`fild`, then
/// `fstp` to the width: one rounding, from an exact value), float to a
/// 32-bit integer through the card's fixed-point conversion with the
/// indefinite fix-up, float to a 64-bit integer through x87 with the
/// control word set to truncate when the instruction truncates. `fild`
/// reads a signed qword, so an unsigned 64-bit integer is refused; and a
/// memory operand addressed through r8 to r15 is, since no REX prefix is
/// emitted.
pub fn scalar_cvt(insn: &Decoded, ev: &Ev, scratch: i32) -> (res: Result<Rewrite, Unsupported>)
    requires
        insn.operable(),
    ensures
        scalar_cvt_outcome(*insn, *ev, scratch).is(*insn, res),
{
    let m: u16 = insn.head.mnemonic;
    if ev.b {
        return Err(
            code::refuse(insn, "scalar conversion with embedded rounding: not expressed yet"),
        );
    }
    if from_int(m) {
        return cvt_from_int(insn, ev, scratch);
    }
    if to_int(m) {
        return cvt_to_scalar_int(insn, ev, scratch);
    }
    let widens = m == mn::VCVTSS2SD;
    let mut em = Em::new(scratch, insn);
    let w: u8 = if widens { 0 } else { 1 };
    let s: u8 = em.scalar_staged(insn, ev, w);
    let r: u8 = em.temp();
    if widens {
        em.mvex(1, 0, 0, 0x5A, r, 0, Rm::Reg(s), 0, 0, None);  // vcvtps2pd
        em.scalar_result(ev.reg, r, ev.vvvv, 1);
    } else {
        em.mvex(1, 1, 1, 0x5A, r, 0, Rm::Reg(s), 0, 0, None);  // vcvtpd2ps
        em.scalar_result(ev.reg, r, ev.vvvv, 0);
    }
    Ok(Rewrite::Thunk(em.finish()))
}

/// What vcvttps2dq or vcvtps2dq becomes.
pub open spec fn cvt_to_int_outcome(insn: Decoded, ev: Ev, scratch: i32) -> Outcome {
    let p = Prog::start(scratch, insn);
    let s = p.src2_reg(insn, ev);
    let p = p.src2(insn, ev);
    let r = p.next_temp();
    let imm: u8 = if insn.head.mnemonic == mn::VCVTTPS2DQ { 3 } else { 0 };
    let p = p.temp().mvex(3, 1, 0, 0xCB, r, 0, Rm::Reg(s), 0, 0, Some(imm));
    Outcome::Thunk(indefinite_above(p, r, s, false).commit(ev.reg, r, ev))
}

/// vcvttps2dq / vcvtps2dq: the card's fixed-point conversion (truncate or
/// MXCSR rounding), then NaN and overflow made the integer indefinite
/// 0x80000000, which the card does not produce for NaN or +overflow.
pub fn cvt_to_int(insn: &Decoded, ev: &Ev, scratch: i32) -> (res: Result<Rewrite, Unsupported>)
    requires
        insn.operable(),
    ensures
        cvt_to_int_outcome(*insn, *ev, scratch).is(*insn, res),
{
    let mut em = Em::new(scratch, insn);
    let truncate = insn.head.mnemonic == mn::VCVTTPS2DQ;
    let s: u8 = ev::src2(&mut em, insn, ev);
    let r: u8 = em.temp();
    let imm: u8 = if truncate { 3 } else { 0 };
    em.mvex(3, 1, 0, 0xCB, r, 0, Rm::Reg(s), 0, 0, Some(imm));
    em.indefinite_above(r, s, false);
    ev::commit(&mut em, ev.reg, r, ev);
    Ok(Rewrite::Thunk(em.finish()))
}

/// The dwords the halves of a float vector of length `ll` take: 8, 4 or 2.
#[verifier::allow_in_spec]
pub fn half_dwords(ll: u8) -> u16
    returns
        (if ll == 2 { 0xffu16 } else if ll == 1 { 0xf } else { 0x3 }),
{
    if ll == 2 {
        0xff
    } else if ll == 1 {
        0xf
    } else {
        0x3
    }
}

impl Prog {
    /// The register a result is made in: a temporary where it is then
    /// written under a mask or a narrow length, else the destination.
    pub open spec fn result_reg(self, narrow: bool, d: u8) -> u8 {
        if narrow { self.next_temp() } else { d }
    }

    /// With that register taken.
    pub open spec fn result_temp(self, narrow: bool) -> Prog {
        if narrow { self.temp() } else { self }
    }

    /// The lane mask of a narrow vector length set, unless it is the full one.
    pub open spec fn lane_mask(self, ll: u8) -> Prog {
        if ll == 2 { self } else { self.mask_imm(ev::vl_lanes(ll, 0)) }
    }

    /// That mask, 0 standing for all lanes.
    pub open spec fn lane_k(self, ll: u8) -> u8 {
        if ll == 2 { 0 } else { self.kscr }
    }
}

impl Em {
    /// The register a result is made in: a temporary where it is then
    /// written under a mask or a narrow length, else the destination.
    pub fn result_reg(&mut self, narrow: bool, d: u8) -> (r: u8)
        requires
            old(self).wf(),
            old(self)@.temps.len() < code::ZMM_SLOTS,
        ensures
            final(self).wf(),
            final(self)@ == old(self)@.result_temp(narrow),
            r == old(self)@.result_reg(narrow, d),
    {
        if narrow {
            self.temp()
        } else {
            d
        }
    }

    /// The lane mask of a vector length, 0 standing for all lanes.
    pub fn lane_mask(&mut self, ll: u8) -> (k: u8)
        requires
            old(self).wf(),
        ensures
            final(self).wf(),
            final(self)@ == old(self)@.lane_mask(ll),
            k == old(self)@.lane_k(ll),
    {
        if ll == 2 {
            0
        } else {
            self.mask_imm(ev::vl_lanes(ll, 0))
        }
    }
}

/// What vcvtph2ps becomes.
pub open spec fn cvt_ph2ps_outcome(insn: Decoded, ev: Ev, scratch: i32) -> Outcome {
    let p = Prog::start(scratch, insn);
    let narrow = ev.aaa != 0 || ev.ll != 2;
    let r = p.result_reg(narrow, ev.reg);
    let k = p.lane_k(ev.ll);
    let p = p.result_temp(narrow);
    let p = match MemOp::spec_of(insn) {
        Some(m) => p.lane_mask(ev.ll).load_unaligned(r, m, k, true, 3),
        None => p
            .mask_imm(half_dwords(ev.ll))
            .mvex(2, 1, 0, 0xD0, ev.rm, 0, Rm::Fs(S_XFER), p.kscr, 0, None)
            .lane_mask(ev.ll)
            .mvex(1, 0, 0, 0x28, r, 0, Rm::Fs(S_XFER), k, 3, None),
    };
    Outcome::Thunk(p.commit(ev.reg, r, ev))
}

/// vcvtph2ps: the card's float16 up-conversion from memory (the unpack
/// pair, so any alignment) or from a register through the scratch area.
pub fn cvt_ph2ps(insn: &Decoded, ev: &Ev, scratch: i32) -> (res: Result<Rewrite, Unsupported>)
    requires
        insn.operable(),
    ensures
        cvt_ph2ps_outcome(*insn, *ev, scratch).is(*insn, res),
{
    let mut em = Em::new(scratch, insn);
    let d: u8 = ev.reg;
    let r: u8 = em.result_reg(ev.aaa != 0 || ev.ll != 2, d);
    match MemOp::of(insn) {
        Some(m) => {
            let k: u8 = em.lane_mask(ev.ll);
            em.load_unaligned(r, m, k, true, 3);
        },
        None => {
            // The source's halves (16 per 256 bits) to the scratch slot, then converted in.
            let k: u8 = em.mask_imm(half_dwords(ev.ll));
            em.mvex(2, 1, 0, 0xD0, ev.rm, 0, Rm::Fs(S_XFER), k, 0, None);
            let k: u8 = em.lane_mask(ev.ll);
            em.mvex(1, 0, 0, 0x28, r, 0, Rm::Fs(S_XFER), k, 3, None);
        },
    }
    ev::commit(&mut em, d, r, ev);
    Ok(Rewrite::Thunk(em.finish()))
}

/// What vcvtps2ph becomes.
pub open spec fn cvt_ps2ph_outcome(insn: Decoded, ev: Ev, scratch: i32) -> Outcome {
    let imm = insn.head.imm8;
    if imm & 3 != 0 && imm & 4 == 0 {
        Outcome::Refused("vcvtps2ph with a rounding other than nearest: not expressed yet"@)
    } else if ev.aaa != 0 {
        Outcome::Refused(
            "a masked vcvtps2ph: the mask is one of 16-bit elements, the card masks 32-bit lanes"@,
        )
    } else {
        let p = Prog::start(scratch, insn);
        let k = p.lane_k(ev.ll);
        let p = p.lane_mask(ev.ll);
        match MemOp::spec_of(insn) {
            Some(m) => Outcome::Thunk(p.store_unaligned(m, ev.reg, k, true, 3)),
            None => Outcome::Thunk(
                p
                    .mvex(1, 0, 0, 0x29, ev.reg, 0, Rm::Fs(S_XFER), k, 3, None)
                    .mask_imm(half_dwords(ev.ll))
                    .vmov(ev.rm, Rm::Fs(S_XFER), p.kscr, 0)
                    .zero_lanes(ev.rm, !half_dwords(ev.ll)),
            ),
        }
    }
}

/// vcvtps2ph: the card's float16 store down-conversion (MXCSR rounding,
/// which the immediate's 0 and 4 both mean here). A masked one is refused.
pub fn cvt_ps2ph(insn: &Decoded, ev: &Ev, scratch: i32) -> (res: Result<Rewrite, Unsupported>)
    requires
        insn.operable(),
    ensures
        cvt_ps2ph_outcome(*insn, *ev, scratch).is(*insn, res),
{
    let mut em = Em::new(scratch, insn);
    let imm: u8 = insn.head.imm8;
    if imm & 3 != 0 && imm & 4 == 0 {
        return Err(
            code::refuse(insn, "vcvtps2ph with a rounding other than nearest: not expressed yet"),
        );
    }
    if ev.aaa != 0 {
        return Err(
            code::refuse(
                insn,
                "a masked vcvtps2ph: the mask is one of 16-bit elements, the card masks 32-bit lanes",
            ),
        );
    }
    let s: u8 = ev.reg;
    let k: u8 = em.lane_mask(ev.ll);
    match MemOp::of(insn) {
        Some(m) => {
            em.store_unaligned(m, s, k, true, 3);
        },
        None => {
            let d: u8 = ev.rm;
            em.mvex(1, 0, 0, 0x29, s, 0, Rm::Fs(S_XFER), k, 3, None);
            // The halves back as dwords: 8 for a 512-bit source, 4, 2.
            let halves: u16 = half_dwords(ev.ll);
            let k: u8 = em.mask_imm(halves);
            em.vmov(d, Rm::Fs(S_XFER), k, 0);
            em.zero_lanes(d, !halves);
        },
    }
    Ok(Rewrite::Thunk(em.finish()))
}

/// The card's conversion field of a widening move, and the bytes of one
/// source element.
#[verifier::allow_in_spec]
pub fn widening(m: u16) -> (u8, u16)
    returns
        (if m == mn::VPMOVZXBD {
            (4u8, 1u16)
        } else if m == mn::VPMOVSXBD {
            (5u8, 1u16)
        } else if m == mn::VPMOVZXWD {
            (6u8, 2u16)
        } else {
            (7u8, 2u16)
        }),
{
    if m == mn::VPMOVZXBD {
        (4, 1)
    } else if m == mn::VPMOVSXBD {
        (5, 1)
    } else if m == mn::VPMOVZXWD {
        (6, 2)
    } else {
        (7, 2)
    }
}

/// The dwords that hold as many elements of `elem` bytes as a vector of
/// length `ll` has dword lanes, as a lane mask.
pub open spec fn packed_dwords(ll: u8, elem: u16) -> u16 {
    if ll == 0 {
        if elem == 1 { 0x1 } else { 0x3 }
    } else if ll == 2 {
        if elem == 1 { 0xf } else { 0xff }
    } else {
        if elem == 1 { 0x3 } else { 0xf }
    }
}

/// What a widening move becomes.
pub open spec fn widen_outcome(insn: Decoded, ev: Ev, scratch: i32) -> Outcome {
    let conv = widening(insn.head.mnemonic);
    let p = Prog::start(scratch, insn);
    let narrow = ev.aaa != 0 || ev.ll != 2;
    let r = p.result_reg(narrow, ev.reg);
    let k = p.lane_k(ev.ll);
    let p = p.result_temp(narrow);
    let p = match MemOp::spec_of(insn) {
        Some(m) => p.lane_mask(ev.ll).load_unaligned(r, m, k, false, conv.0),
        None => p
            .mask_imm(packed_dwords(ev.ll, conv.1))
            .mvex(2, 1, 0, 0xD0, ev.rm, 0, Rm::Fs(S_XFER), p.kscr, 0, None)
            .lane_mask(ev.ll)
            .mvex(1, 1, 0, 0x6F, r, 0, Rm::Fs(S_XFER), k, conv.0, None),
    };
    Outcome::Thunk(p.commit(ev.reg, r, (Ev { w: 0, ..ev })))
}

/// vpmovzxbd / sxbd / zxwd / sxwd: the card's memory up-conversions,
/// from memory through the unpack pair (element alignment only) or from
/// a register through the scratch area.
pub fn widen(insn: &Decoded, ev: &Ev, scratch: i32) -> (res: Result<Rewrite, Unsupported>)
    requires
        insn.operable(),
    ensures
        widen_outcome(*insn, *ev, scratch).is(*insn, res),
{
    let mut em = Em::new(scratch, insn);
    let d: u8 = ev.reg;
    let (conv, elem_bytes) = widening(insn.head.mnemonic);
    let r: u8 = em.result_reg(ev.aaa != 0 || ev.ll != 2, d);
    match MemOp::of(insn) {
        Some(m) => {
            let k: u8 = em.lane_mask(ev.ll);
            em.load_unaligned(r, m, k, false, conv);
        },
        None => {
            // The source's bytes (one element per lane) to the scratch slot.
            let lanes: u16 = if ev.ll == 0 {
                4
            } else if ev.ll == 2 {
                16
            } else {
                8
            };
            let n_dwords: u16 = (lanes * elem_bytes + 3) / 4;
            assert((1u16 << 1u16) == 2 && (1u16 << 2u16) == 4 && (1u16 << 4u16) == 16 && (1u16
                << 8u16) == 256) by (bit_vector);
            let k: u8 = em.mask_imm((1u16 << n_dwords) - 1);
            em.mvex(2, 1, 0, 0xD0, ev.rm, 0, Rm::Fs(S_XFER), k, 0, None);
            let k: u8 = em.lane_mask(ev.ll);
            em.mvex(1, 1, 0, 0x6F, r, 0, Rm::Fs(S_XFER), k, conv, None);
        },
    }
    ev::commit(&mut em, d, r, &Ev { w: 0, ..*ev });
    Ok(Rewrite::Thunk(em.finish()))
}

/// What vcvtpd2ps becomes.
pub open spec fn cvt_pd2ps_outcome(insn: Decoded, ev: Ev, scratch: i32) -> Outcome {
    let p = Prog::start(scratch, insn);
    let s = p.src2_reg(insn, ev);
    let p = p.src2(insn, ev);
    let r = p.result_reg(ev.aaa != 0, ev.reg);
    let p = p.result_temp(ev.aaa != 0).mvex(1, 1, 1, 0x5A, r, 0, Rm::Reg(s), 0, 0, None);
    let p = if ev.ll != 2 { p.zero_lanes(r, !half_dwords(ev.ll)) } else { p };
    let p = p.commit(ev.reg, r, (Ev { ll: if ev.ll == 2 { 1 } else { 0 }, w: 0, ..ev }));
    Outcome::Thunk(if ev.ll == 0 && ev.aaa != 0 { p.zero_lanes(ev.reg, 0xfffc) } else { p })
}

/// vcvtpd2ps ymm, zmm/m512: the card's vcvtpd2ps (MVEX.512.66.0F.W1 5A)
/// gives the 8 floats in the low lanes; the lanes above are zeroed
/// here, as a ymm destination requires.
pub fn cvt_pd2ps(insn: &Decoded, ev: &Ev, scratch: i32) -> (res: Result<Rewrite, Unsupported>)
    requires
        insn.operable(),
    ensures
        cvt_pd2ps_outcome(*insn, *ev, scratch).is(*insn, res),
{
    let mut em = Em::new(scratch, insn);
    let d: u8 = ev.reg;
    let s: u8 = ev::src2(&mut em, insn, ev);
    let r: u8 = em.result_reg(ev.aaa != 0, d);
    em.mvex(1, 1, 1, 0x5A, r, 0, Rm::Reg(s), 0, 0, None);
    // 8 doubles give 8 floats (ll 2); 4 give 4 (ll 1); 2 give 2 (ll 0)
    let out_ll: u8 = if ev.ll == 2 { 1 } else { 0 };
    if ev.ll != 2 {
        em.zero_lanes(r, !half_dwords(ev.ll));
    }
    ev::commit(&mut em, d, r, &Ev { ll: out_ll, w: 0, ..*ev });
    if ev.ll == 0 && ev.aaa != 0 {
        // The two lanes above the floats are zero whatever their mask bits.
        em.zero_lanes(d, 0xfffc);
    }
    Ok(Rewrite::Thunk(em.finish()))
}

/// What a vrndscale becomes.
pub open spec fn rndscale_outcome(insn: Decoded, ev: Ev, scratch: i32) -> Outcome {
    let imm = insn.head.imm8;
    let scalar = insn.head.mnemonic == mn::VRNDSCALESS || insn.head.mnemonic == mn::VRNDSCALESD;
    let rc = Some(imm & 3);
    let p = Prog::start(scratch, insn);
    if imm >> 4 != 0 {
        Outcome::Refused("vrndscale to a fraction of a bit (M above 0): not expressed yet"@)
    } else if imm & 4 != 0 {
        Outcome::Refused("vrndscale with the MXCSR rounding mode: not expressed yet"@)
    } else if scalar && ev.aaa != 0 {
        Outcome::Refused("masked scalar round: not expressed yet"@)
    } else if scalar {
        let (rm, sss): (Rm, u8) = match MemOp::spec_of(insn) {
            Some(m) => (Rm::Mem(m), 1),
            None => (Rm::Reg(ev.rm), 0),
        };
        Outcome::Thunk(
            p
                .mask_imm(1)
                .mvex(3, 1, ev.w, 0x52, ev.reg, 0, rm, p.kscr, sss, rc)
                .scalar_rest(ev.reg, ev.vvvv, ev.w),
        )
    } else {
        let s = p.src2_reg(insn, ev);
        let p = p.src2(insn, ev);
        let narrow = ev.aaa != 0 || ev.ll != 2;
        let r = p.result_reg(narrow, ev.reg);
        Outcome::Thunk(
            p
                .result_temp(narrow)
                .mvex(3, 1, ev.w, 0x52, r, 0, Rm::Reg(s), 0, 0, rc)
                .commit(ev.reg, r, ev),
        )
    }
}

/// vrndscaleps/pd/ss/sd with M = 0 (to an integer) and an explicit
/// rounding mode: the card's vrndfxpntps/pd (MVEX.512.66.0F3A.W0 52 ib;
/// W1 for pd), whose immediate takes the same two rounding-mode bits.
pub fn rndscale(insn: &Decoded, ev: &Ev, scratch: i32) -> (res: Result<Rewrite, Unsupported>)
    requires
        insn.operable(),
    ensures
        rndscale_outcome(*insn, *ev, scratch).is(*insn, res),
{
    let mut em = Em::new(scratch, insn);
    let imm: u8 = insn.head.imm8;
    if imm >> 4 != 0 {
        return Err(
            code::refuse(
                insn,
                "vrndscale to a fraction of a bit (M above 0): not expressed yet",
            ),
        );
    }
    if imm & 4 != 0 {
        return Err(
            code::refuse(insn, "vrndscale with the MXCSR rounding mode: not expressed yet"),
        );
    }
    let rc: u8 = imm & 3;
    let w: u8 = ev.w;
    let d: u8 = ev.reg;
    let scalar = insn.head.mnemonic == mn::VRNDSCALESS || insn.head.mnemonic == mn::VRNDSCALESD;
    if scalar {
        if ev.aaa != 0 {
            return Err(code::refuse(insn, "masked scalar round: not expressed yet"));
        }
        let (rm, sss): (Rm, u8) = match MemOp::of(insn) {
            Some(m) => (Rm::Mem(m), 1),
            None => (Rm::Reg(ev.rm), 0),
        };
        let k: u8 = em.mask_imm(1);
        em.mvex(3, 1, w, 0x52, d, 0, rm, k, sss, Some(rc));
        em.scalar_rest(d, ev.vvvv, w);
    } else {
        let s: u8 = ev::src2(&mut em, insn, ev);
        let r: u8 = em.result_reg(ev.aaa != 0 || ev.ll != 2, d);
        em.mvex(3, 1, w, 0x52, r, 0, Rm::Reg(s), 0, 0, Some(rc));
        ev::commit(&mut em, d, r, ev);
    }
    Ok(Rewrite::Thunk(em.finish()))
}

/// What vscalefps becomes.
pub open spec fn scalef_outcome(insn: Decoded, ev: Ev, scratch: i32) -> Outcome {
    let p = Prog::start(scratch, insn);
    let s2 = p.src2_reg(insn, ev);
    let p = p.src2(insn, ev);
    let t = p.next_temp();
    let p = p.temp();
    let r = p.next_temp();
    Outcome::Thunk(
        p
            .temp()
            .mvex(3, 1, 0, 0xCB, t, 0, Rm::Reg(s2), 0, 0, Some(1))
            .mvex(2, 1, 0, 0x84, r, ev.vvvv, Rm::Reg(t), 0, 0, None)
            .commit(ev.reg, r, ev),
    )
}

/// vscalefps: x * 2^floor(y). The card's vscaleps (MVEX.NDS.512.66.0F38.W0
/// 84) takes the exponent as an int32 vector: floor(y) as an integer
/// first (vcvtfxpntps2dq rounding down).
pub fn scalef(insn: &Decoded, ev: &Ev, scratch: i32) -> (res: Result<Rewrite, Unsupported>)
    requires
        insn.operable(),
    ensures
        scalef_outcome(*insn, *ev, scratch).is(*insn, res),
{
    let mut em = Em::new(scratch, insn);
    let s2: u8 = ev::src2(&mut em, insn, ev);
    let t: u8 = em.temp();
    let r: u8 = em.temp();
    em.mvex(3, 1, 0, 0xCB, t, 0, Rm::Reg(s2), 0, 0, Some(1));  // floor(y) as int32
    em.mvex(2, 1, 0, 0x84, r, ev.vvvv, Rm::Reg(t), 0, 0, None);
    ev::commit(&mut em, ev.reg, r, ev);
    Ok(Rewrite::Thunk(em.finish()))
}

} // verus!
