//! Translate AVX-512 (EVEX) instructions into Knights Corner (MVEX) ones.
//!
//! The two encodings are close relatives. For the arithmetic that exists on
//! both machines the rewrite touches two places and no others: bit 2 of P1,
//! which EVEX fixes at 1 and MVEX does not use, and the P2 byte, where EVEX
//! packs `z | L'L | b | V' | aaa` and MVEX packs `E | SSS | V' | aaa`. So
//! `vaddps zmm0, zmm1, zmm2` is `62 f1 74 48 58 c2` as AVX-512 and
//! `62 f1 70 08 58 c2` on the card. That is the easy half and it covers
//! most of AVX-512F.
//!
//! The rest is the hard half:
//!
//! - AVX-512 has unaligned 512-bit loads and stores; the card has none, and
//!   each becomes a pair of instructions addressing two cache lines.
//! - AVX-512 has zeroing masking (`{z}`); the card has merging only.
//! - AVX-512 has 128-bit and 256-bit forms; the card is 512-bit only.
//! - `vdivps`, `vsqrtps` and their float64 forms do not exist on the card at
//!   all and have to be synthesised.
//!
//! Anything that cannot be translated is refused by name with a reason,
//! never approximated silently. A wrong answer that looks like a right
//! answer is the one failure mode that would make the whole exercise
//! worthless.
use crate::mvex::conv;
use crate::mvex::encode::{Insn, InsnV};
use crate::mvex::plain;
use crate::mvex::reg::{Conv, Gpr, Mem, Src, Zmm, K};
use crate::xlate::code;
use crate::xlate::code::Unsupported;
use crate::xlate::insn;
use crate::xlate::insn::Decoded;
use crate::xlate::mnemonic as mn;
use vstd::prelude::*;

verus! {

/// The zmm register with code `r`.
pub open spec fn zmm_of(r: u8) -> Option<Zmm> {
    if insn::REG_ZMM0 <= r <= insn::REG_ZMM31 {
        Some(Zmm((r - insn::REG_ZMM0) as u8))
    } else {
        None
    }
}

/// Map a decoded `zmm` register to the encoder's.
fn zmm(r: u8) -> (z: Option<Zmm>)
    ensures
        z == zmm_of(r),
        z matches Some(z) ==> z.ok(),
{
    if r >= insn::REG_ZMM0 && r <= insn::REG_ZMM31 {
        Some(Zmm(r - insn::REG_ZMM0))
    } else {
        None
    }
}

/// The write mask with code `r`: `k0` means "no mask", which is how both
/// instruction sets spell an unmasked operation.
pub open spec fn mask_of(r: u8) -> K {
    if insn::REG_K0 <= r <= insn::REG_K7 {
        K((r - insn::REG_K0) as u8)
    } else {
        K(0)
    }
}

/// Map a decoded mask register to the encoder's.
fn kreg(r: u8) -> (k: K)
    requires
        r == insn::REG_NONE || insn::REG_K0 <= r <= insn::REG_K7,
    ensures
        k == mask_of(r),
        k.ok(),
{
    if r == insn::REG_NONE || r == insn::REG_K0 {
        K(0)
    } else {
        K(r - insn::REG_K0)
    }
}

/// The 64-bit general register with code `r`, where a memory base can be
/// one: rsp and r12 need a SIB byte, which the encoder does not emit.
pub open spec fn base_of(r: u8) -> Option<Gpr> {
    let n = r - insn::REG_RAX;
    if n == 0 {
        Some(Gpr::Rax)
    } else if n == 1 {
        Some(Gpr::Rcx)
    } else if n == 2 {
        Some(Gpr::Rdx)
    } else if n == 3 {
        Some(Gpr::Rbx)
    } else if n == 5 {
        Some(Gpr::Rbp)
    } else if n == 6 {
        Some(Gpr::Rsi)
    } else if n == 7 {
        Some(Gpr::Rdi)
    } else if n == 8 {
        Some(Gpr::R8)
    } else if n == 9 {
        Some(Gpr::R9)
    } else if n == 10 {
        Some(Gpr::R10)
    } else if n == 11 {
        Some(Gpr::R11)
    } else if n == 13 {
        Some(Gpr::R13)
    } else if n == 14 {
        Some(Gpr::R14)
    } else if n == 15 {
        Some(Gpr::R15)
    } else {
        None
    }
}

/// Map a 64-bit general purpose register to the encoder's.
fn gpr(r: u8) -> (g: Option<Gpr>)
    ensures
        g == base_of(r),
        g != Some(Gpr::Rsp) && g != Some(Gpr::R12),
{
    if r < insn::REG_RAX {
        return None;
    }
    match r - insn::REG_RAX {
        0 => Some(Gpr::Rax),
        1 => Some(Gpr::Rcx),
        2 => Some(Gpr::Rdx),
        3 => Some(Gpr::Rbx),
        5 => Some(Gpr::Rbp),
        6 => Some(Gpr::Rsi),
        7 => Some(Gpr::Rdi),
        8 => Some(Gpr::R8),
        9 => Some(Gpr::R9),
        10 => Some(Gpr::R10),
        11 => Some(Gpr::R11),
        13 => Some(Gpr::R13),
        14 => Some(Gpr::R14),
        15 => Some(Gpr::R15),
        _ => None,
    }
}

/// What a translation comes to: the card's instructions, or a reason.
pub enum Translation {
    Card(Seq<InsnV>),
    Refused(Seq<char>),
}

/// The instructions of a list.
pub open spec fn views(v: Seq<Insn>) -> Seq<InsnV> {
    v.map_values(|i: Insn| i@)
}

impl Translation {
    /// Whether `r` is this translation of `insn`.
    pub open spec fn is(self, insn: Decoded, r: Result<Vec<Insn>, Unsupported>) -> bool {
        match self {
            Translation::Card(s) => r matches Ok(v) && views(v@) == s,
            Translation::Refused(reason) => r matches Err(u) && u.text@ == insn.text@ && u.reason@
                == reason,
        }
    }
}

/// `[base + disp]` of the memory operand, or why the encoder cannot
/// represent it.
pub open spec fn mem_of(insn: Decoded) -> Result<Mem, Seq<char>> {
    let disp = insn.mem.disp as i64;
    if insn.mem.index != insn::REG_NONE {
        Err(
            "indexed addressing: the MVEX encoder emits no SIB byte, so [base + index*scale] has to be strength-reduced to a pointer increment before translation"@,
        )
    } else if insn.mem.segment != insn::REG_NONE {
        Err("segment prefix"@)
    } else if insn.mem.base == insn::REG_RSP || insn.mem.base == insn::REG_R12 {
        Err("rsp or r12 as a memory base needs a SIB byte, which the MVEX encoder does not emit"@)
    } else {
        match base_of(insn.mem.base) {
            None => Err(
                "memory base is not a 64-bit register the encoder accepts (rsp and r12 need a SIB byte)"@,
            ),
            Some(b) => if i32::MIN <= disp <= i32::MAX {
                Ok(Mem::at(b, disp as i32))
            } else {
                Err("displacement does not fit in 32 bits"@)
            },
        }
    }
}

/// Whether `u` refuses `insn` for `reason`.
pub open spec fn refuses(u: Unsupported, insn: Decoded, reason: Seq<char>) -> bool {
    u.text@ == insn.text@ && u.reason@ == reason
}

/// Pull `[base + disp]` out of an instruction's memory operand, refusing
/// every addressing form the encoder cannot represent.
fn mem(insn: &Decoded) -> (m: Result<Mem, Unsupported>)
    ensures
        match m {
            Ok(x) => mem_of(*insn) == Ok::<Mem, Seq<char>>(x),
            Err(u) => mem_of(*insn) matches Err(e) && refuses(u, *insn, e),
        },
{
    if insn.mem.index != insn::REG_NONE {
        return Err(
            code::refuse(
                insn,
                "indexed addressing: the MVEX encoder emits no SIB byte, so [base + index*scale] has to be strength-reduced to a pointer increment before translation",
            ),
        );
    }
    if insn.mem.segment != insn::REG_NONE {
        return Err(code::refuse(insn, "segment prefix"));
    }
    if insn.mem.base == insn::REG_RSP || insn.mem.base == insn::REG_R12 {
        return Err(
            code::refuse(
                insn,
                "rsp or r12 as a memory base needs a SIB byte, which the MVEX encoder does not emit",
            ),
        );
    }
    match gpr(insn.mem.base) {
        None => Err(
            code::refuse(
                insn,
                "memory base is not a 64-bit register the encoder accepts (rsp and r12 need a SIB byte)",
            ),
        ),
        Some(b) => {
            let disp: i64 = insn.mem.disp as i64;
            if disp < i32::MIN as i64 || disp > i32::MAX as i64 {
                Err(code::refuse(insn, "displacement does not fit in 32 bits"))
            } else {
                Ok(Mem::new(b, disp as i32))
            }
        },
    }
}

/// Whether operand `i` is a 128-bit or 256-bit register.
pub open spec fn narrow(insn: Decoded, i: int) -> bool {
    let r = insn.reg(i);
    &&& insn.kind(i) == insn::KIND_REGISTER
    &&& (insn::REG_XMM0 <= r <= insn::REG_XMM31 || insn::REG_YMM0 <= r <= insn::REG_YMM31)
}

/// Why an instruction is refused whatever its mnemonic, if it is.
pub open spec fn common_refusal(insn: Decoded) -> Option<Seq<char>> {
    if exists|i: int| 0 <= i < insn.head.op_count && narrow(insn, i) {
        Some(
            "AVX-512VL: the card is 512-bit only and has no xmm or ymm registers, so a 128-bit or 256-bit operation has to be re-expressed at 512 bits under a write-mask that limits the active lanes"@,
        )
    } else if insn.head.zeroing {
        Some(
            "zeroing masking {z}: Knights Corner has merging masking only, so this needs the destination cleared first, which changes register pressure and is not a local rewrite"@,
        )
    } else if insn.head.rounding != insn::ROUNDING_NONE {
        Some(
            "embedded rounding {er}: expressible on the card as MVEX static rounding, not yet wired through the encoder"@,
        )
    } else if insn.head.broadcast {
        Some(
            "embedded broadcast {1toN}: expressible on the card as an MVEX swizzle, not yet wired through the encoder"@,
        )
    } else {
        None
    }
}

/// The checks that apply to every EVEX instruction before its mnemonic is
/// even considered.
///
/// AVX-512VL: an EVEX instruction with L'L naming 128 or 256 bits is still
/// EVEX, so it reaches here rather than being caught as legacy AVX, and its
/// mnemonic is in the table. Translating it would emit a 512-bit MVEX
/// instruction that writes four times the width the program expects, so it
/// is refused explicitly and by name.
fn check_common(insn: &Decoded) -> (r: Result<(), Unsupported>)
    requires
        insn.head.op_count <= 5,
    ensures
        match r {
            Ok(()) => common_refusal(*insn) is None,
            Err(u) => common_refusal(*insn) matches Some(e) && refuses(u, *insn, e),
        },
{
    let mut i: usize = 0;
    while i < insn.head.op_count as usize
        invariant
            i <= insn.head.op_count <= 5,
            forall|j: int| 0 <= j < i ==> !narrow(*insn, j),
        decreases insn.head.op_count - i,
    {
        let kind: u8 = insn.op_kind(i);
        if kind == insn::KIND_REGISTER {
            let r: u8 = insn.op_register(i);
            if (r >= insn::REG_XMM0 && r <= insn::REG_XMM31) || (r >= insn::REG_YMM0 && r
                <= insn::REG_YMM31) {
                assert(narrow(*insn, i as int));
                return Err(
                    code::refuse(
                        insn,
                        "AVX-512VL: the card is 512-bit only and has no xmm or ymm registers, so a 128-bit or 256-bit operation has to be re-expressed at 512 bits under a write-mask that limits the active lanes",
                    ),
                );
            }
        }
        i = i + 1;
    }
    if insn.head.zeroing {
        return Err(
            code::refuse(
                insn,
                "zeroing masking {z}: Knights Corner has merging masking only, so this needs the destination cleared first, which changes register pressure and is not a local rewrite",
            ),
        );
    }
    if insn.head.rounding != insn::ROUNDING_NONE {
        return Err(
            code::refuse(
                insn,
                "embedded rounding {er}: expressible on the card as MVEX static rounding, not yet wired through the encoder",
            ),
        );
    }
    if insn.head.broadcast {
        return Err(
            code::refuse(
                insn,
                "embedded broadcast {1toN}: expressible on the card as an MVEX swizzle, not yet wired through the encoder",
            ),
        );
    }
    Ok(())
}

/// The first source, and the second: a register, or memory.
pub open spec fn sources_of(insn: Decoded) -> Result<(Zmm, Src), Seq<char>> {
    match zmm_of(insn.reg(1)) {
        None => Err("first source is not a zmm register"@),
        Some(s1) => if insn.kind(2) == insn::KIND_REGISTER {
            match zmm_of(insn.reg(2)) {
                Some(s2) => Ok((s1, Src::Reg(s2))),
                None => Err("second source is not a zmm register"@),
            }
        } else if insn.kind(2) == insn::KIND_MEMORY {
            match mem_of(insn) {
                Ok(m) => Ok((s1, Src::Mem(m))),
                Err(e) => Err(e),
            }
        } else {
            Err("second source is neither a register nor memory"@)
        },
    }
}

/// The second source operand: a register, or memory.
fn src1_and_src2(insn: &Decoded) -> (r: Result<(Zmm, Src), Unsupported>)
    ensures
        match r {
            Ok(s) => sources_of(*insn) == Ok::<(Zmm, Src), Seq<char>>(s) && s.0.ok() && s.1.ok(),
            Err(u) => sources_of(*insn) matches Err(e) && refuses(u, *insn, e),
        },
{
    let src1 = match zmm(insn.op_register(1)) {
        Some(z) => z,
        None => {
            return Err(code::refuse(insn, "first source is not a zmm register"));
        },
    };
    let kind: u8 = insn.op_kind(2);
    if kind == insn::KIND_REGISTER {
        match zmm(insn.op_register(2)) {
            Some(z) => Ok((src1, Src::Reg(z))),
            None => Err(code::refuse(insn, "second source is not a zmm register")),
        }
    } else if kind == insn::KIND_MEMORY {
        match mem(insn) {
            Ok(m) => Ok((src1, Src::Mem(m))),
            Err(u) => Err(u),
        }
    } else {
        Err(code::refuse(insn, "second source is neither a register nor memory"))
    }
}

/// The card's instruction for an operation both machines have, with the
/// same lane layout and the same IEEE semantics.
pub open spec fn mechanical(m: u16, dst: Zmm, s1: Zmm, s2: Src, k: K) -> Option<InsnV> {
    if m == mn::VADDPS {
        Some(InsnV::vaddps(dst, s1, s2, k))
    } else if m == mn::VSUBPS {
        Some(InsnV::vsubps(dst, s1, s2, k))
    } else if m == mn::VMULPS {
        Some(InsnV::vmulps(dst, s1, s2, k))
    } else if m == mn::VADDPD {
        Some(InsnV::vaddpd(dst, s1, s2, k))
    } else if m == mn::VSUBPD {
        Some(InsnV::vsubpd(dst, s1, s2, k))
    } else if m == mn::VMULPD {
        Some(InsnV::vmulpd(dst, s1, s2, k))
    } else if m == mn::VFMADD231PS {
        Some(InsnV::vfmadd231ps(dst, s1, s2, k))
    } else if m == mn::VFMADD213PS {
        Some(InsnV::vfmadd213ps(dst, s1, s2, k))
    } else if m == mn::VFMADD231PD {
        Some(InsnV::vfmadd231pd(dst, s1, s2, k))
    } else if m == mn::VFMADD213PD {
        Some(InsnV::vfmadd213pd(dst, s1, s2, k))
    } else if m == mn::VPADDD {
        Some(InsnV::vpaddd(dst, s1, s2, k))
    } else if m == mn::VPSUBD {
        Some(InsnV::vpsubd(dst, s1, s2, k))
    } else if m == mn::VPANDD {
        Some(InsnV::vpandd(dst, s1, s2, k))
    } else if m == mn::VPANDND {
        Some(InsnV::vpandnd(dst, s1, s2, k))
    } else if m == mn::VPORD {
        Some(InsnV::vpord(dst, s1, s2, k))
    } else if m == mn::VPXORD {
        Some(InsnV::vpxord(dst, s1, s2, k))
    } else {
        None
    }
}

/// Whether `m` is an operation both machines have.
#[verifier::allow_in_spec]
pub fn is_mechanical(m: u16) -> bool
    returns
        m == mn::VADDPS || m == mn::VSUBPS || m == mn::VMULPS || m == mn::VADDPD || m == mn::VSUBPD
            || m == mn::VMULPD || m == mn::VFMADD231PS || m == mn::VFMADD213PS || m
            == mn::VFMADD231PD || m == mn::VFMADD213PD || m == mn::VPADDD || m == mn::VPSUBD || m
            == mn::VPANDD || m == mn::VPANDND || m == mn::VPORD || m == mn::VPXORD,
{
    m == mn::VADDPS || m == mn::VSUBPS || m == mn::VMULPS || m == mn::VADDPD || m == mn::VSUBPD || m
        == mn::VMULPD || m == mn::VFMADD231PS || m == mn::VFMADD213PS || m == mn::VFMADD231PD || m
        == mn::VFMADD213PD || m == mn::VPADDD || m == mn::VPSUBD || m == mn::VPANDD || m
        == mn::VPANDND || m == mn::VPORD || m == mn::VPXORD
}

/// The mechanical cases: same operation, same lane layout, same IEEE
/// semantics under MXCSR; fused multiply-adds are fused and single-rounded
/// on both machines. Only the encoding changes.
fn re_encode(m: u16, dst: Zmm, s1: Zmm, s2: Src, k: K) -> (i: Insn)
    requires
        is_mechanical(m),
        dst.ok(),
        s1.ok(),
        s2.ok(),
        k.ok(),
    ensures
        mechanical(m, dst, s1, s2, k) == Some(i@),
{
    if m == mn::VADDPS {
        plain::vaddps(dst, s1, s2, k)
    } else if m == mn::VSUBPS {
        plain::vsubps(dst, s1, s2, k)
    } else if m == mn::VMULPS {
        plain::vmulps(dst, s1, s2, k)
    } else if m == mn::VADDPD {
        plain::vaddpd(dst, s1, s2, k)
    } else if m == mn::VSUBPD {
        plain::vsubpd(dst, s1, s2, k)
    } else if m == mn::VMULPD {
        plain::vmulpd(dst, s1, s2, k)
    } else if m == mn::VFMADD231PS {
        plain::vfmadd231ps(dst, s1, s2, k)
    } else if m == mn::VFMADD213PS {
        plain::vfmadd213ps(dst, s1, s2, k)
    } else if m == mn::VFMADD231PD {
        plain::vfmadd231pd(dst, s1, s2, k)
    } else if m == mn::VFMADD213PD {
        plain::vfmadd213pd(dst, s1, s2, k)
    } else if m == mn::VPADDD {
        plain::vpaddd(dst, s1, s2, k)
    } else if m == mn::VPSUBD {
        plain::vpsubd(dst, s1, s2, k)
    } else if m == mn::VPANDD {
        plain::vpandd(dst, s1, s2, k)
    } else if m == mn::VPANDND {
        plain::vpandnd(dst, s1, s2, k)
    } else if m == mn::VPORD {
        plain::vpord(dst, s1, s2, k)
    } else {
        plain::vpxord(dst, s1, s2, k)
    }
}

/// Whether `m` is an aligned 512-bit move.
#[verifier::allow_in_spec]
pub fn is_aligned_move(m: u16) -> bool
    returns
        m == mn::VMOVAPS || m == mn::VMOVAPD || m == mn::VMOVDQA32 || m == mn::VMOVDQA64,
{
    m == mn::VMOVAPS || m == mn::VMOVAPD || m == mn::VMOVDQA32 || m == mn::VMOVDQA64
}

/// Whether `m` is an unaligned 512-bit move.
#[verifier::allow_in_spec]
pub fn is_unaligned_move(m: u16) -> bool
    returns
        m == mn::VMOVUPS || m == mn::VMOVUPD || m == mn::VMOVDQU32 || m == mn::VMOVDQU64,
{
    m == mn::VMOVUPS || m == mn::VMOVUPD || m == mn::VMOVDQU32 || m == mn::VMOVDQU64
}

/// A move with its register and memory operand: whether it loads.
pub open spec fn move_operands(insn: Decoded) -> Result<(bool, Zmm, Mem), Seq<char>> {
    if insn.kind(0) == insn::KIND_REGISTER && insn.kind(1) == insn::KIND_MEMORY {
        match (zmm_of(insn.reg(0)), mem_of(insn)) {
            (None, _) => Err("destination is not a zmm register"@),
            (Some(_), Err(e)) => Err(e),
            (Some(z), Ok(m)) => Ok((true, z, m)),
        }
    } else if insn.kind(0) == insn::KIND_MEMORY && insn.kind(1) == insn::KIND_REGISTER {
        match (zmm_of(insn.reg(1)), mem_of(insn)) {
            (None, _) => Err("source is not a zmm register"@),
            (Some(_), Err(e)) => Err(e),
            (Some(z), Ok(m)) => Ok((false, z, m)),
        }
    } else {
        Err("register to register moves are not translated yet"@)
    }
}

fn operands_of_move(insn: &Decoded) -> (r: Result<(bool, Zmm, Mem), Unsupported>)
    ensures
        match r {
            Ok(s) => move_operands(*insn) == Ok::<(bool, Zmm, Mem), Seq<char>>(s) && s.1.ok(),
            Err(u) => move_operands(*insn) matches Err(e) && refuses(u, *insn, e),
        },
{
    let kind0: u8 = insn.op_kind(0);
    let kind1: u8 = insn.op_kind(1);
    if kind0 == insn::KIND_REGISTER && kind1 == insn::KIND_MEMORY {
        match zmm(insn.op_register(0)) {
            None => Err(code::refuse(insn, "destination is not a zmm register")),
            Some(z) => match mem(insn) {
                Ok(m) => Ok((true, z, m)),
                Err(u) => Err(u),
            },
        }
    } else if kind0 == insn::KIND_MEMORY && kind1 == insn::KIND_REGISTER {
        match zmm(insn.op_register(1)) {
            None => Err(code::refuse(insn, "source is not a zmm register")),
            Some(z) => match mem(insn) {
                Ok(m) => Ok((false, z, m)),
                Err(u) => Err(u),
            },
        }
    } else {
        Err(code::refuse(insn, "register to register moves are not translated yet"))
    }
}

/// Whether the elements that a mask of the aligned move `m` selects are
/// qwords.
#[verifier::allow_in_spec]
pub fn moves_qwords(m: u16) -> bool
    returns
        m == mn::VMOVAPD || m == mn::VMOVDQA64,
{
    m == mn::VMOVAPD || m == mn::VMOVDQA64
}

/// An aligned move: one instruction each way, the only 512-bit move the
/// card has that is not a pair. Under a mask it is the one whose lanes are
/// of the size of the elements that the mask selects.
pub open spec fn aligned_move(insn: Decoded) -> Translation {
    let k = mask_of(insn.head.mask);
    match move_operands(insn) {
        Err(e) => Translation::Refused(e),
        Ok((load, z, m)) => Translation::Card(
            seq![
                if k == K(0) {
                    if load {
                        InsnV::vmovaps_load(z, m)
                    } else {
                        InsnV::vmovaps_store(m, z)
                    }
                } else if moves_qwords(insn.head.mnemonic) {
                    if load {
                        InsnV::vmovapd_load(z, Src::Mem(m), k)
                    } else {
                        InsnV::vmovapd_store(m, z, k)
                    }
                } else if load {
                    InsnV::vmovaps_load_conv(z, m, Conv::Plain, k)
                } else {
                    InsnV::vmovaps_store_conv(m, z, Conv::Plain, k)
                },
            ],
        ),
    }
}

/// An unaligned move: the pair that addresses the two cache lines the
/// access straddles. Under a mask the pair moves the lanes selected one after
/// the other, so a masked move is refused.
pub open spec fn unaligned_move(insn: Decoded) -> Translation {
    let k = mask_of(insn.head.mask);
    match move_operands(insn) {
        Err(e) => Translation::Refused(e),
        Ok((load, z, lo)) => if k != K(0) {
            Translation::Refused(
                "a masked unaligned move: the card's pair packs the lanes it moves"@,
            )
        } else if lo.spec_disp() + 64 > i32::MAX {
            Translation::Refused(
                "displacement overflows when offset by 64 for the high half"@,
            )
        } else {
            let hi = Mem::at(lo.spec_base(), (lo.spec_disp() + 64) as i32);
            if load {
                Translation::Card(
                    seq![InsnV::vloadunpackld(z, lo, k), InsnV::vloadunpackhd(z, hi, k)],
                )
            } else {
                Translation::Card(
                    seq![InsnV::vpackstoreld(lo, z, k), InsnV::vpackstorehd(hi, z, k)],
                )
            }
        },
    }
}

/// Why a mnemonic outside the table is refused.
pub open spec fn hole(m: u16) -> Seq<char> {
    if m == mn::VDIVPS || m == mn::VDIVPD || m == mn::VSQRTPS || m == mn::VSQRTPD {
        "no divide or square root exists on Knights Corner; this needs the Newton-Raphson expansion described in docs/research/avx512-on-knc.md"@
    } else if m == mn::VMAXPS || m == mn::VMINPS || m == mn::VMAXPD || m == mn::VMINPD {
        "the card's vgmax/vgmin use the IEEE-754-2008 NaN rule, not the AVX-512 one; this needs the compare-and-blend expansion"@
    } else if m == mn::VPTERNLOGD || m == mn::VPTERNLOGQ {
        "vpternlog has no card equivalent; needs truth-table expansion"@
    } else if m == mn::VGATHERDPS || m == mn::VGATHERDPD || m == mn::VPGATHERDD || m
        == mn::VPGATHERDQ {
        "the card's gather completes only a subset per issue and must be looped until the mask clears, which adds control flow the region model has to carry"@
    } else {
        "not in the translation table"@
    }
}

/// The documented holes, refused by name so that a caller is told exactly
/// which piece of work is missing rather than getting a wrong answer.
fn refuse_hole(insn: &Decoded) -> (u: Unsupported)
    ensures
        refuses(u, *insn, hole(insn.head.mnemonic)),
{
    let m: u16 = insn.head.mnemonic;
    code::refuse(
        insn,
        if m == mn::VDIVPS || m == mn::VDIVPD || m == mn::VSQRTPS || m == mn::VSQRTPD {
            "no divide or square root exists on Knights Corner; this needs the Newton-Raphson expansion described in docs/research/avx512-on-knc.md"
        } else if m == mn::VMAXPS || m == mn::VMINPS || m == mn::VMAXPD || m == mn::VMINPD {
            "the card's vgmax/vgmin use the IEEE-754-2008 NaN rule, not the AVX-512 one; this needs the compare-and-blend expansion"
        } else if m == mn::VPTERNLOGD || m == mn::VPTERNLOGQ {
            "vpternlog has no card equivalent; needs truth-table expansion"
        } else if m == mn::VGATHERDPS || m == mn::VGATHERDPD || m == mn::VPGATHERDD || m
            == mn::VPGATHERDQ {
            "the card's gather completes only a subset per issue and must be looped until the mask clears, which adds control flow the region model has to carry"
        } else {
            "not in the translation table"
        },
    )
}

/// What `insn` is translated into.
pub open spec fn translation(insn: Decoded) -> Translation {
    let m = insn.head.mnemonic;
    let k = mask_of(insn.head.mask);
    match common_refusal(insn) {
        Some(e) => Translation::Refused(e),
        None => if is_mechanical(m) {
            match (zmm_of(insn.reg(0)), sources_of(insn)) {
                (None, _) => Translation::Refused("destination is not a zmm register"@),
                (Some(_), Err(e)) => Translation::Refused(e),
                (Some(d), Ok((s1, s2))) => Translation::Card(
                    seq![mechanical(m, d, s1, s2, k)->0],
                ),
            }
        } else if is_aligned_move(m) {
            aligned_move(insn)
        } else if is_unaligned_move(m) {
            unaligned_move(insn)
        } else {
            Translation::Refused(hole(m))
        },
    }
}

impl Decoded {
    /// Whether the operands can be walked and the write mask is a mask
    /// register, as those of a decoded instruction are.
    pub open spec fn translatable(&self) -> bool {
        &&& self.head.op_count <= 5
        &&& self.head.mask == insn::REG_NONE || insn::REG_K0 <= self.head.mask <= insn::REG_K7
    }
}

fn one(i: Insn) -> (v: Vec<Insn>)
    ensures
        views(v@) == seq![i@],
{
    let mut v: Vec<Insn> = Vec::new();
    v.push(i);
    assert(views(v@) =~= seq![i@]);
    v
}

fn two(a: Insn, b: Insn) -> (v: Vec<Insn>)
    ensures
        views(v@) == seq![a@, b@],
{
    let mut v: Vec<Insn> = Vec::new();
    v.push(a);
    v.push(b);
    assert(views(v@) =~= seq![a@, b@]);
    v
}

/// Translate one AVX-512 instruction into the Knights Corner instructions
/// that reproduce it.
///
/// Returns more than one instruction where the card has no single
/// equivalent; the sequence is always semantically complete, never a
/// truncation.
pub fn translate(insn: &Decoded) -> (r: Result<Vec<Insn>, Unsupported>)
    requires
        insn.translatable(),
    ensures
        translation(*insn).is(*insn, r),
{
    match check_common(insn) {
        Ok(()) => {},
        Err(u) => {
            return Err(u);
        },
    }
    let k = kreg(insn.head.mask);
    let m: u16 = insn.head.mnemonic;
    if is_mechanical(m) {
        return match zmm(insn.op_register(0)) {
            None => Err(code::refuse(insn, "destination is not a zmm register")),
            Some(dst) => match src1_and_src2(insn) {
                Ok((src1, src2)) => Ok(one(re_encode(m, dst, src1, src2, k))),
                Err(u) => Err(u),
            },
        };
    }
    if is_aligned_move(m) {
        return match operands_of_move(insn) {
            Err(u) => Err(u),
            Ok((load, z, mem)) => {
                let i = if k.0 == 0 {
                    if load {
                        plain::vmovaps_load(z, mem)
                    } else {
                        plain::vmovaps_store(mem, z)
                    }
                } else if moves_qwords(m) {
                    if load {
                        plain::vmovapd_load(z, Src::Mem(mem), k)
                    } else {
                        plain::vmovapd_store(mem, z, k)
                    }
                } else if load {
                    conv::vmovaps_load_conv(z, mem, Conv::Plain, k)
                } else {
                    conv::vmovaps_store_conv(mem, z, Conv::Plain, k)
                };
                Ok(one(i))
            },
        };
    }
    if is_unaligned_move(m) {
        return match operands_of_move(insn) {
            Err(u) => Err(u),
            Ok((load, z, lo)) => {
                if k.0 != 0 {
                    return Err(
                        code::refuse(
                            insn,
                            "a masked unaligned move: the card's pair packs the lanes it moves",
                        ),
                    );
                }
                match lo.offset(64) {
                    None => Err(
                        code::refuse(
                            insn,
                            "displacement overflows when offset by 64 for the high half",
                        ),
                    ),
                    Some(hi) => {
                        if load {
                            Ok(two(plain::vloadunpackld(z, lo, k), plain::vloadunpackhd(z, hi, k)))
                        } else {
                            Ok(two(plain::vpackstoreld(lo, z, k), plain::vpackstorehd(hi, z, k)))
                        }
                    },
                }
            },
        };
    }
    Err(refuse_hole(insn))
}

/// Decodes the instruction at the start of `code`, taken to stand at `ip`,
/// and translates it; `None` where the decoder gives operands that no
/// instruction has.
pub fn translate_at(code: &[u8], ip: u64) -> (res: Option<Result<Vec<Insn>, Unsupported>>)
    ensures
        exists|d: Decoded| #[trigger] d.is_decoding_of(code@, ip) && (match res {
            Some(r) => d.translatable() && translation(d).is(d, r),
            None => !d.translatable(),
        }),
{
    let d = insn::decode(code, ip);
    assert(d.is_decoding_of(code@, ip));
    let mask_ok = d.head.mask == insn::REG_NONE || (d.head.mask >= insn::REG_K0 && d.head.mask
        <= insn::REG_K7);
    if d.head.op_count <= 5 && mask_ok {
        Some(translate(&d))
    } else {
        None
    }
}

} // verus!
