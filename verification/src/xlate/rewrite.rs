//! EVEX to MVEX rewriting.
//!
//! The card's MVEX prefix and AVX-512's EVEX prefix share the four-byte
//! shape, the opcode maps, and the ModRM, SIB and displacement bytes
//! that follow, so for a 512-bit register-to-register instruction the
//! card has one to one, the rewrite is the prefix payload alone and the
//! instruction keeps its length (`Rewrite::InPlace`): P1 bit 2 clears,
//! and P2's `z L'L b V' aaa` becomes `E SSS V' aaa`, with SSS 001 for an
//! embedded broadcast.
//!
//! Everything else becomes a sequence placed out of line: the site
//! becomes `jmp rel32` into a thunk area that runs the sequence and
//! jumps back (`Rewrite::Thunk`). What a sequence clobbers (rax, rcx, one
//! mask register, temporary vector registers) is saved in the per-thread
//! scratch area first and restored last, never on the program's stack,
//! which the threads of a split loop share.
use crate::bits;
use crate::xlate::arith;
use crate::xlate::bytewise;
use crate::xlate::bytewise::Bytewise;
use crate::xlate::code;
use crate::xlate::code::{MemOp, Rewrite, Target, Unsupported};
use crate::xlate::convert;
use crate::xlate::divide;
use crate::xlate::ev;
use crate::xlate::ev::{Ev, Outcome};
use crate::xlate::insn;
use crate::xlate::insn::Decoded;
use crate::xlate::mask;
use crate::xlate::mnemonic as mn;
use crate::xlate::permute;
use crate::xlate::shuffle;
use crate::xlate::table;
use crate::xlate::table::Canon;
use vstd::prelude::*;

verus! {

/// The sequence an instruction with its own operand shape takes.
#[derive(Clone, Copy, Debug, PartialEq, Eq, Structural)]
pub enum Form {
    Extract,
    Insert,
    Ternlog,
    UnalignedMove,
    ScalarMove,
    ScalarOp,
    ScalarMinmax,
    Minmax,
    Movdq,
    BroadcastReg,
    Interleave,
    Valignq,
    ByteShift,
    CvtToInt,
    CvtPh2ps,
    CvtPd2ps,
    Scalef,
    Divsqrt,
    Rndscale,
    ScalarCvt,
    Permute,
    CvtPs2ph,
    Widen,
    ShiftQ,
    AbsD,
    Muludq,
    ShiftByXmm,
    /// None of them: the table of the card's instructions decides.
    Table,
}

/// Whether `m` is one of the instructions of [`Form::Extract`].
#[verifier::allow_in_spec]
pub fn is_extract(m: u16) -> bool
    returns
        m == mn::VEXTRACTF64X4 || m == mn::VEXTRACTF32X4 || m == mn::VEXTRACTI64X4
            || m == mn::VEXTRACTI32X4 || m == mn::VEXTRACTF64X2 || m == mn::VEXTRACTI64X2
            || m == mn::VEXTRACTF32X8 || m == mn::VEXTRACTI32X8,
{
    m == mn::VEXTRACTF64X4 || m == mn::VEXTRACTF32X4 || m == mn::VEXTRACTI64X4
        || m == mn::VEXTRACTI32X4 || m == mn::VEXTRACTF64X2 || m == mn::VEXTRACTI64X2
        || m == mn::VEXTRACTF32X8 || m == mn::VEXTRACTI32X8
}

/// Whether `m` is one of the instructions of [`Form::Insert`].
#[verifier::allow_in_spec]
pub fn is_insert(m: u16) -> bool
    returns
        m == mn::VINSERTF64X4 || m == mn::VINSERTF32X4 || m == mn::VINSERTI64X4
            || m == mn::VINSERTI32X4 || m == mn::VINSERTF64X2 || m == mn::VINSERTI64X2
            || m == mn::VINSERTF32X8 || m == mn::VINSERTI32X8,
{
    m == mn::VINSERTF64X4 || m == mn::VINSERTF32X4 || m == mn::VINSERTI64X4
        || m == mn::VINSERTI32X4 || m == mn::VINSERTF64X2 || m == mn::VINSERTI64X2
        || m == mn::VINSERTF32X8 || m == mn::VINSERTI32X8
}

/// Whether `m` is one of the instructions of [`Form::UnalignedMove`].
#[verifier::allow_in_spec]
pub fn is_unaligned_move(m: u16) -> bool
    returns
        m == mn::VMOVUPS || m == mn::VMOVUPD || m == mn::VMOVDQU32 || m == mn::VMOVDQU64
            || m == mn::VMOVDQU8 || m == mn::VMOVDQU16,
{
    m == mn::VMOVUPS || m == mn::VMOVUPD || m == mn::VMOVDQU32 || m == mn::VMOVDQU64
        || m == mn::VMOVDQU8 || m == mn::VMOVDQU16
}

/// Whether `m` is one of the instructions of [`Form::ScalarOp`].
#[verifier::allow_in_spec]
pub fn is_scalar_op(m: u16) -> bool
    returns
        m == mn::VADDSS || m == mn::VSUBSS || m == mn::VMULSS || m == mn::VADDSD
            || m == mn::VSUBSD || m == mn::VMULSD || m == mn::VFMADD132SS
            || m == mn::VFMADD213SS || m == mn::VFMADD231SS || m == mn::VFMSUB132SS
            || m == mn::VFMSUB213SS || m == mn::VFMSUB231SS || m == mn::VFNMADD132SS
            || m == mn::VFNMADD213SS || m == mn::VFNMADD231SS || m == mn::VFNMSUB132SS
            || m == mn::VFNMSUB213SS || m == mn::VFNMSUB231SS || m == mn::VFMADD132SD
            || m == mn::VFMADD213SD || m == mn::VFMADD231SD || m == mn::VFMSUB132SD
            || m == mn::VFMSUB213SD || m == mn::VFMSUB231SD || m == mn::VFNMADD132SD
            || m == mn::VFNMADD213SD || m == mn::VFNMADD231SD || m == mn::VFNMSUB132SD
            || m == mn::VFNMSUB213SD || m == mn::VFNMSUB231SD,
{
    m == mn::VADDSS || m == mn::VSUBSS || m == mn::VMULSS || m == mn::VADDSD || m == mn::VSUBSD
        || m == mn::VMULSD || m == mn::VFMADD132SS || m == mn::VFMADD213SS
        || m == mn::VFMADD231SS || m == mn::VFMSUB132SS || m == mn::VFMSUB213SS
        || m == mn::VFMSUB231SS || m == mn::VFNMADD132SS || m == mn::VFNMADD213SS
        || m == mn::VFNMADD231SS || m == mn::VFNMSUB132SS || m == mn::VFNMSUB213SS
        || m == mn::VFNMSUB231SS || m == mn::VFMADD132SD || m == mn::VFMADD213SD
        || m == mn::VFMADD231SD || m == mn::VFMSUB132SD || m == mn::VFMSUB213SD
        || m == mn::VFMSUB231SD || m == mn::VFNMADD132SD || m == mn::VFNMADD213SD
        || m == mn::VFNMADD231SD || m == mn::VFNMSUB132SD || m == mn::VFNMSUB213SD
        || m == mn::VFNMSUB231SD
}

/// Whether `m` is one of the instructions of [`Form::Interleave`].
#[verifier::allow_in_spec]
pub fn is_interleave(m: u16) -> bool
    returns
        m == mn::VMOVLHPS || m == mn::VMOVHLPS || m == mn::VUNPCKLPS || m == mn::VUNPCKHPS
            || m == mn::VUNPCKLPD || m == mn::VUNPCKHPD || m == mn::VPUNPCKLDQ
            || m == mn::VPUNPCKHDQ || m == mn::VPUNPCKLQDQ || m == mn::VPUNPCKHQDQ
            || m == mn::VSHUFPS || m == mn::VSHUFPD,
{
    m == mn::VMOVLHPS || m == mn::VMOVHLPS || m == mn::VUNPCKLPS || m == mn::VUNPCKHPS
        || m == mn::VUNPCKLPD || m == mn::VUNPCKHPD || m == mn::VPUNPCKLDQ
        || m == mn::VPUNPCKHDQ || m == mn::VPUNPCKLQDQ || m == mn::VPUNPCKHQDQ
        || m == mn::VSHUFPS || m == mn::VSHUFPD
}

/// Whether `m` is one of the instructions of [`Form::Divsqrt`].
#[verifier::allow_in_spec]
pub fn is_divsqrt(m: u16) -> bool
    returns
        m == mn::VDIVPS || m == mn::VDIVPD || m == mn::VDIVSS || m == mn::VDIVSD
            || m == mn::VSQRTPS || m == mn::VSQRTPD || m == mn::VSQRTSS || m == mn::VSQRTSD,
{
    m == mn::VDIVPS || m == mn::VDIVPD || m == mn::VDIVSS || m == mn::VDIVSD || m == mn::VSQRTPS
        || m == mn::VSQRTPD || m == mn::VSQRTSS || m == mn::VSQRTSD
}

/// Whether `m` is one of the instructions of [`Form::ScalarCvt`].
#[verifier::allow_in_spec]
pub fn is_scalar_cvt(m: u16) -> bool
    returns
        m == mn::VCVTSI2SS || m == mn::VCVTSI2SD || m == mn::VCVTUSI2SS || m == mn::VCVTUSI2SD
            || m == mn::VCVTTSS2SI || m == mn::VCVTSS2SI || m == mn::VCVTTSD2SI
            || m == mn::VCVTSD2SI || m == mn::VCVTTSS2USI || m == mn::VCVTSS2USI
            || m == mn::VCVTTSD2USI || m == mn::VCVTSD2USI || m == mn::VCVTSS2SD
            || m == mn::VCVTSD2SS,
{
    m == mn::VCVTSI2SS || m == mn::VCVTSI2SD || m == mn::VCVTUSI2SS || m == mn::VCVTUSI2SD
        || m == mn::VCVTTSS2SI || m == mn::VCVTSS2SI || m == mn::VCVTTSD2SI
        || m == mn::VCVTSD2SI || m == mn::VCVTTSS2USI || m == mn::VCVTSS2USI
        || m == mn::VCVTTSD2USI || m == mn::VCVTSD2USI || m == mn::VCVTSS2SD
        || m == mn::VCVTSD2SS
}

/// Whether `m` is one of the instructions of [`Form::Permute`].
#[verifier::allow_in_spec]
pub fn is_permute(m: u16) -> bool
    returns
        m == mn::VPERMI2PS || m == mn::VPERMI2D || m == mn::VPERMT2PS || m == mn::VPERMT2D
            || m == mn::VPERMI2PD || m == mn::VPERMI2Q || m == mn::VPERMT2PD
            || m == mn::VPERMT2Q || m == mn::VPERMQ || m == mn::VPERMPD || m == mn::VPERMILPD,
{
    m == mn::VPERMI2PS || m == mn::VPERMI2D || m == mn::VPERMT2PS || m == mn::VPERMT2D
        || m == mn::VPERMI2PD || m == mn::VPERMI2Q || m == mn::VPERMT2PD || m == mn::VPERMT2Q
        || m == mn::VPERMQ || m == mn::VPERMPD || m == mn::VPERMILPD
}

/// The sequence for instruction `m`: `mem` whether it has a memory operand,
/// `imm8` whether its last operand is an 8-bit immediate.
#[verifier::allow_in_spec]
pub fn form(m: u16, mem: bool, imm8: bool, ev: Ev) -> Form
    returns
        (if is_extract(m) {
            Form::Extract
        } else if is_insert(m) {
            Form::Insert
        } else if m == mn::VPTERNLOGD || m == mn::VPTERNLOGQ {
            Form::Ternlog
        } else if is_unaligned_move(m) {
            Form::UnalignedMove
        } else if m == mn::VMOVSS || m == mn::VMOVSD {
            Form::ScalarMove
        } else if is_scalar_op(m) {
            Form::ScalarOp
        } else if m == mn::VMAXSS || m == mn::VMINSS || m == mn::VMAXSD || m == mn::VMINSD {
            Form::ScalarMinmax
        } else if m == mn::VMAXPS || m == mn::VMINPS || m == mn::VMAXPD || m == mn::VMINPD {
            Form::Minmax
        } else if m == mn::VMOVD || m == mn::VMOVQ {
            Form::Movdq
        } else if (m == mn::VPBROADCASTD || m == mn::VPBROADCASTQ || m == mn::VBROADCASTSS || m == mn::VBROADCASTSD) && !mem {
            Form::BroadcastReg
        } else if is_interleave(m) {
            Form::Interleave
        } else if m == mn::VALIGNQ {
            Form::Valignq
        } else if m == mn::VPALIGNR || m == mn::VPSRLDQ || m == mn::VPSLLDQ {
            Form::ByteShift
        } else if m == mn::VCVTTPS2DQ || m == mn::VCVTPS2DQ {
            Form::CvtToInt
        } else if m == mn::VCVTPH2PS {
            Form::CvtPh2ps
        } else if m == mn::VCVTPD2PS {
            Form::CvtPd2ps
        } else if m == mn::VSCALEFPS {
            Form::Scalef
        } else if is_divsqrt(m) {
            Form::Divsqrt
        } else if m == mn::VRNDSCALEPS || m == mn::VRNDSCALEPD || m == mn::VRNDSCALESS || m == mn::VRNDSCALESD {
            Form::Rndscale
        } else if is_scalar_cvt(m) {
            Form::ScalarCvt
        } else if is_permute(m) {
            Form::Permute
        } else if m == mn::VPERMILPS && (ev.is_reg_rm || !ev.b) && !imm8 {
            Form::Permute
        } else if (m == mn::VPERMD || m == mn::VPERMPS) && (ev.is_reg_rm || !ev.b) && !imm8 && ev.ll != 2 {
            Form::Permute
        } else if m == mn::VCVTPS2PH {
            Form::CvtPs2ph
        } else if m == mn::VPMOVZXBD || m == mn::VPMOVSXBD || m == mn::VPMOVZXWD || m == mn::VPMOVSXWD {
            Form::Widen
        } else if (m == mn::VPSRLQ || m == mn::VPSLLQ || m == mn::VPSRAQ) && imm8 {
            Form::ShiftQ
        } else if m == mn::VPABSD {
            Form::AbsD
        } else if m == mn::VPMULUDQ {
            Form::Muludq
        } else if (m == mn::VPSLLD || m == mn::VPSRLD || m == mn::VPSRAD) && !imm8 {
            Form::ShiftByXmm
        } else {
            Form::Table
        }),
{
    if is_extract(m) {
        Form::Extract
    } else if is_insert(m) {
        Form::Insert
    } else if m == mn::VPTERNLOGD || m == mn::VPTERNLOGQ {
        Form::Ternlog
    } else if is_unaligned_move(m) {
        Form::UnalignedMove
    } else if m == mn::VMOVSS || m == mn::VMOVSD {
        Form::ScalarMove
    } else if is_scalar_op(m) {
        Form::ScalarOp
    } else if m == mn::VMAXSS || m == mn::VMINSS || m == mn::VMAXSD || m == mn::VMINSD {
        Form::ScalarMinmax
    } else if m == mn::VMAXPS || m == mn::VMINPS || m == mn::VMAXPD || m == mn::VMINPD {
        Form::Minmax
    } else if m == mn::VMOVD || m == mn::VMOVQ {
        Form::Movdq
    } else if (m == mn::VPBROADCASTD || m == mn::VPBROADCASTQ || m == mn::VBROADCASTSS || m == mn::VBROADCASTSD) && !mem {
        Form::BroadcastReg
    } else if is_interleave(m) {
        Form::Interleave
    } else if m == mn::VALIGNQ {
        Form::Valignq
    } else if m == mn::VPALIGNR || m == mn::VPSRLDQ || m == mn::VPSLLDQ {
        Form::ByteShift
    } else if m == mn::VCVTTPS2DQ || m == mn::VCVTPS2DQ {
        Form::CvtToInt
    } else if m == mn::VCVTPH2PS {
        Form::CvtPh2ps
    } else if m == mn::VCVTPD2PS {
        Form::CvtPd2ps
    } else if m == mn::VSCALEFPS {
        Form::Scalef
    } else if is_divsqrt(m) {
        Form::Divsqrt
    } else if m == mn::VRNDSCALEPS || m == mn::VRNDSCALEPD || m == mn::VRNDSCALESS || m == mn::VRNDSCALESD {
        Form::Rndscale
    } else if is_scalar_cvt(m) {
        Form::ScalarCvt
    } else if is_permute(m) {
        Form::Permute
    } else if m == mn::VPERMILPS && (ev.is_reg_rm || !ev.b) && !imm8 {
        Form::Permute
    } else if (m == mn::VPERMD || m == mn::VPERMPS) && (ev.is_reg_rm || !ev.b) && !imm8 && ev.ll != 2 {
        Form::Permute
    } else if m == mn::VCVTPS2PH {
        Form::CvtPs2ph
    } else if m == mn::VPMOVZXBD || m == mn::VPMOVSXBD || m == mn::VPMOVZXWD || m == mn::VPMOVSXWD {
        Form::Widen
    } else if (m == mn::VPSRLQ || m == mn::VPSLLQ || m == mn::VPSRAQ) && imm8 {
        Form::ShiftQ
    } else if m == mn::VPABSD {
        Form::AbsD
    } else if m == mn::VPMULUDQ {
        Form::Muludq
    } else if (m == mn::VPSLLD || m == mn::VPSRLD || m == mn::VPSRAD) && !imm8 {
        Form::ShiftByXmm
    } else {
        Form::Table
    }
}

/// What an instruction with its own sequence becomes.
pub open spec fn special_outcome(
    f: Form,
    insn: Decoded,
    bytes: Seq<u8>,
    ev: Ev,
    scratch: i32,
) -> Outcome {
    match f {
        Form::Extract => shuffle::extract_outcome(insn, ev, scratch),
        Form::Insert => shuffle::insert_outcome(insn, ev, scratch),
        Form::Ternlog => arith::ternlog_outcome(insn, ev, scratch),
        Form::UnalignedMove => arith::unaligned_move_outcome(insn, bytes, ev, scratch),
        Form::ScalarMove => arith::scalar_move_outcome(insn, ev, scratch),
        Form::ScalarOp => arith::scalar_op_outcome(insn, ev, scratch),
        Form::ScalarMinmax => arith::scalar_minmax_outcome(insn, ev, scratch),
        Form::Minmax => arith::minmax_outcome(insn, ev, scratch),
        Form::Movdq => arith::movdq_outcome(insn, scratch),
        Form::BroadcastReg => shuffle::broadcast_reg_outcome(insn, ev, scratch),
        Form::Interleave => shuffle::interleave_outcome(insn, ev, scratch),
        Form::Valignq => shuffle::valignq_outcome(insn, ev, scratch),
        Form::ByteShift => shuffle::byte_shift_outcome(insn, ev, scratch),
        Form::CvtToInt => convert::cvt_to_int_outcome(insn, ev, scratch),
        Form::CvtPh2ps => convert::cvt_ph2ps_outcome(insn, ev, scratch),
        Form::CvtPd2ps => convert::cvt_pd2ps_outcome(insn, ev, scratch),
        Form::Scalef => convert::scalef_outcome(insn, ev, scratch),
        Form::Divsqrt => divide::divsqrt_outcome(insn, ev, scratch),
        Form::Rndscale => convert::rndscale_outcome(insn, ev, scratch),
        Form::ScalarCvt => convert::scalar_cvt_outcome(insn, ev, scratch),
        Form::Permute => permute::permute_outcome(insn, ev, scratch),
        Form::CvtPs2ph => convert::cvt_ps2ph_outcome(insn, ev, scratch),
        Form::Widen => convert::widen_outcome(insn, ev, scratch),
        Form::ShiftQ => arith::shift_q_outcome(insn, ev, scratch),
        Form::AbsD => arith::abs_d_outcome(insn, ev, scratch),
        Form::Muludq => arith::muludq_outcome(insn, ev, scratch),
        Form::ShiftByXmm => arith::shift_by_xmm_outcome(insn, ev, scratch),
        Form::Table => table_outcome(insn, bytes, ev, scratch),
    }
}

/// Whether the card can take the 512-bit form as it is: spelled the same,
/// with no zeroing, and with a memory operand (if any) that is a
/// broadcast, an aligned move or a block broadcast.
pub open spec fn keeps_its_place(ev: Ev, c: Canon) -> bool {
    let has_mem = !ev.is_reg_rm;
    let aligned_move = table::is_load(ev) || table::is_store(ev);
    let broadcast_load = table::broadcasts_element(ev) || table::broadcasts_block(ev);
    &&& ev.ll == 2
    &&& !ev.z
    &&& c == (Canon { map: ev.map, pp: ev.pp, w: ev.w, op: ev.op, imm: None })
    &&& (!has_mem || ev.b || aligned_move || broadcast_load)
}

/// An instruction kept in place: P1 bit 2 cleared, and in P2 the broadcast
/// bit as the swizzle field, V' and the mask kept.
pub open spec fn in_place(bytes: Seq<u8>, len: int, broadcast: bool) -> Seq<u8> {
    bytes
        .take(len)
        .update(2, bytes[2] & 0xfb)
        .update(3, (if broadcast { 0x10u8 } else { 0u8 }) | (bytes[3] & 0x0f))
}

/// The card's spelling of the instruction.
pub open spec fn spelling(ev: Ev) -> Option<Canon> {
    table::canon_of(ev.map, ev.pp, ev.w, ev.op, (ev.modrm >> 3) & 7)
}

/// Whether the instruction is a float compare with a predicate above 7, or
/// an integer one with FALSE or TRUE.
pub open spec fn needs_predicate(ev: Ev, imm8: u8) -> bool {
    ||| ev.map == 1 && ev.op == 0xC2 && imm8 > 7
    ||| ev.map == 3 && (ev.op == 0x1F || ev.op == 0x1E) && (imm8 & 7 == 3 || imm8 & 7 == 7)
}

/// What an instruction of the table becomes.
pub open spec fn table_outcome(insn: Decoded, bytes: Seq<u8>, ev: Ev, scratch: i32) -> Outcome {
    match spelling(ev) {
        None => Outcome::Refused("not in the card's instruction table"@),
        Some(c) => if needs_predicate(ev, insn.head.imm8) {
            mask::compare_outcome(insn, ev, scratch)
        } else if ev.b && ev.is_reg_rm {
            Outcome::Refused("embedded rounding or SAE: not expressed on the card yet"@)
        } else if keeps_its_place(ev, c) {
            Outcome::InPlace(in_place(bytes, insn.head.len as int, ev.b))
        } else {
            table::generic_outcome(insn, ev, c, scratch)
        },
    }
}

/// Whether `insn` is encoded with EVEX, and `bytes` show it.
pub open spec fn is_evex(insn: Decoded, bytes: Seq<u8>) -> bool {
    insn.head.encoding == insn::ENCODING_EVEX && bytes.len() >= 6 && bytes[0] == 0x62
}

/// What `insn`, decoded from `bytes`, becomes.
pub open spec fn rewrite_outcome(insn: Decoded, bytes: Seq<u8>, scratch: i32) -> Outcome {
    if insn.head.encoding == insn::ENCODING_VEX {
        mask::kops_outcome(insn, bytes, scratch)
    } else if !is_evex(insn, bytes) {
        Outcome::Refused("not an EVEX instruction"@)
    } else {
        let ev = ev::parsed(bytes);
        special_outcome(
            form(insn.head.mnemonic, insn.has_mem(), insn.ends_in_imm8(), ev),
            insn,
            bytes,
            ev,
            scratch,
        )
    }
}

impl Decoded {
    /// Whether the instruction has the operands its encoding implies, lies
    /// whole in `bytes`, and, where it is a float compare, has one of the
    /// 32 predicates: what holds of the decoding of a well-formed vector or
    /// mask instruction.
    pub open spec fn rewritable(&self, bytes: Seq<u8>) -> bool {
        if self.head.encoding == insn::ENCODING_VEX {
            self.mask_operable(bytes)
        } else if is_evex(*self, bytes) {
            let ev = ev::parsed(bytes);
            &&& self.operable()
            &&& 5 <= self.head.len <= bytes.len()
            &&& ev.map == 1 && ev.op == 0xC2 && spelling(ev) is Some ==> self.head.imm8 < 32
        } else {
            true
        }
    }

    /// Whether the operands can be walked.
    fn is_operable(&self) -> (b: bool)
        ensures
            b == self.operable(),
    {
        self.head.op_count >= 1 && self.head.op_count <= 5 && (self.op_kind(1) != insn::KIND_MEMORY
            || self.head.op_count >= 2) && (self.mem.disp as i64) <= i64::MAX - 64
    }

    /// Whether `rewrite` applies to this instruction, decoded from `bytes`.
    pub fn is_rewritable(&self, bytes: &[u8]) -> (b: bool)
        ensures
            b == self.rewritable(bytes@),
    {
        if self.head.encoding == insn::ENCODING_VEX {
            if mask::mask_op(self.head.mnemonic) == mask::MaskOp::Other {
                return true;
            }
            if !self.is_operable() || bytes.len() < 2 || self.head.len > bytes.len() {
                return false;
            }
            let k0 = insn::kreg(self.op_register(0)).is_some();
            let k1 = insn::kreg(self.op_register(1)).is_some();
            let k2 = insn::kreg(self.op_register(2)).is_some();
            let kind0: u8 = self.op_kind(0);
            let kind1: u8 = self.op_kind(1);
            match mask::mask_op(self.head.mnemonic) {
                mask::MaskOp::Move => {
                    (!(kind0 == insn::KIND_REGISTER && kind1 == insn::KIND_MEMORY) || k0) && (!(kind0
                        == insn::KIND_MEMORY && kind1 == insn::KIND_REGISTER) || k1)
                },
                mask::MaskOp::Three(_) => k0 && k1 && k2,
                mask::MaskOp::Unpack => k0 && k1 && k2,
                mask::MaskOp::Not => k0 && k1,
                mask::MaskOp::OrTest => k0 && k1,
                mask::MaskOp::Shift { left: _ } => k0 && k1,
                mask::MaskOp::Other => true,
            }
        } else if self.head.encoding == insn::ENCODING_EVEX && bytes.len() >= 6 && bytes[0] == 0x62 {
            if !self.is_operable() || self.head.len < 5 || self.head.len > bytes.len() {
                return false;
            }
            let ev = ev::parse(bytes);
            proof {
                lemma_w(bytes@[2]);
            }
            !(ev.map == 1 && ev.op == 0xC2 && table::canon(
                ev.map,
                ev.pp,
                ev.w,
                ev.op,
                (ev.modrm >> 3) & 7,
            ).is_some()) || self.head.imm8 < 32
        } else {
            true
        }
    }
}

proof fn lemma_w(p1: u8)
    ensures
        p1 >> 7 <= 1,
{
    bits::lemma_low(p1);
}

/// The instructions with their own operand shapes. `None` means the
/// instruction is not one of them.
fn special(f: Form, insn: &Decoded, bytes: &[u8], ev: &Ev, scratch: i32) -> (res: Option<
    Result<Rewrite, Unsupported>,
>)
    requires
        insn.operable(),
        5 <= insn.head.len <= bytes@.len(),
    ensures
        res is None <==> f == Form::Table,
        res matches Some(r) ==> special_outcome(f, *insn, bytes@, *ev, scratch).is(*insn, r),
{
    Some(
        match f {
            Form::Extract => shuffle::extract(insn, ev, scratch),
            Form::Insert => shuffle::insert(insn, ev, scratch),
            Form::Ternlog => arith::ternlog(insn, ev, scratch),
            Form::UnalignedMove => arith::unaligned_move(insn, bytes, ev, scratch),
            Form::ScalarMove => arith::scalar_move(insn, ev, scratch),
            Form::ScalarOp => arith::scalar_op(insn, ev, scratch),
            Form::ScalarMinmax => arith::scalar_minmax(insn, ev, scratch),
            Form::Minmax => arith::minmax(insn, ev, scratch),
            Form::Movdq => arith::movdq(insn, scratch),
            Form::BroadcastReg => shuffle::broadcast_reg(insn, ev, scratch),
            Form::Interleave => shuffle::interleave(insn, ev, scratch),
            Form::Valignq => shuffle::valignq(insn, ev, scratch),
            Form::ByteShift => shuffle::byte_shift(insn, ev, scratch),
            Form::CvtToInt => convert::cvt_to_int(insn, ev, scratch),
            Form::CvtPh2ps => convert::cvt_ph2ps(insn, ev, scratch),
            Form::CvtPd2ps => convert::cvt_pd2ps(insn, ev, scratch),
            Form::Scalef => convert::scalef(insn, ev, scratch),
            Form::Divsqrt => divide::divsqrt(insn, ev, scratch),
            Form::Rndscale => convert::rndscale(insn, ev, scratch),
            Form::ScalarCvt => convert::scalar_cvt(insn, ev, scratch),
            Form::Permute => permute::permute(insn, ev, scratch),
            Form::CvtPs2ph => convert::cvt_ps2ph(insn, ev, scratch),
            Form::Widen => convert::widen(insn, ev, scratch),
            Form::ShiftQ => arith::shift_q(insn, ev, scratch),
            Form::AbsD => arith::abs_d(insn, ev, scratch),
            Form::Muludq => arith::muludq(insn, ev, scratch),
            Form::ShiftByXmm => arith::shift_by_xmm(insn, ev, scratch),
            Form::Table => {
                return None;
            },
        },
    )
}

/// An instruction of the table: in place where the card can take it as it
/// is, else its general form.
fn from_table(insn: &Decoded, bytes: &[u8], ev: &Ev, scratch: i32) -> (res: Result<
    Rewrite,
    Unsupported,
>)
    requires
        insn.operable(),
        5 <= insn.head.len <= bytes@.len(),
        *ev == ev::parsed(bytes@),
        bytes@.len() >= 6,
        ev.map == 1 && ev.op == 0xC2 && spelling(*ev) is Some ==> insn.head.imm8 < 32,
    ensures
        table_outcome(*insn, bytes@, *ev, scratch).is(*insn, res),
{
    proof {
        lemma_w(bytes@[2]);
    }
    let c = match table::canon(ev.map, ev.pp, ev.w, ev.op, (ev.modrm >> 3) & 7) {
        Some(c) => c,
        None => {
            return Err(code::refuse(insn, "not in the card's instruction table"));
        },
    };
    let imm: u8 = insn.head.imm8;
    if (ev.map == 1 && ev.op == 0xC2 && imm > 7) || (ev.map == 3 && (ev.op == 0x1F || ev.op == 0x1E)
        && (imm & 7 == 3 || imm & 7 == 7)) {
        return mask::compare(insn, ev, scratch);
    }
    let same_shape = c.map == ev.map && c.pp == ev.pp && c.w == ev.w && c.op == ev.op
        && c.imm.is_none();
    let has_mem = !ev.is_reg_rm;
    let aligned_move = table::is_load(*ev) || table::is_store(*ev);
    let broadcast_load = table::broadcasts_element(*ev) || table::broadcasts_block(*ev);
    if ev.b && !has_mem {
        return Err(
            code::refuse(insn, "embedded rounding or SAE: not expressed on the card yet"),
        );
    }
    // In place: the 512-bit form of an instruction spelled the same, with
    // no zeroing, whose memory operand (if any) is a broadcast, an
    // aligned move or a block broadcast: what the card can address as is.
    if ev.ll == 2 && !ev.z && same_shape && (!has_mem || ev.b || aligned_move || broadcast_load) {
        let mut v: Vec<u8> = vstd::slice::slice_to_vec(
            vstd::slice::slice_subrange(bytes, 0, insn.head.len),
        );
        assert(v@ =~= bytes@.take(insn.head.len as int));
        v.set(2, bytes[2] & 0xfb);
        v.set(3, (if ev.b { 0x10 } else { 0 }) | (bytes[3] & 0x0f));
        return Ok(Rewrite::InPlace(v));
    }
    table::generic(insn, ev, c, scratch)
}

/// Rewrite one AVX-512 instruction (EVEX, or a VEX-encoded mask
/// instruction) for the card.
pub fn rewrite(insn: &Decoded, bytes: &[u8], tg: &Target) -> (res: Result<Rewrite, Unsupported>)
    requires
        insn.rewritable(bytes@),
    ensures
        rewrite_outcome(*insn, bytes@, tg.scratch).is(*insn, res),
{
    if insn.head.encoding == insn::ENCODING_VEX {
        return mask::kops(insn, bytes, tg.scratch);
    }
    if insn.head.encoding != insn::ENCODING_EVEX || bytes.len() < 6 || bytes[0] != 0x62 {
        return Err(code::refuse(insn, "not an EVEX instruction"));
    }
    let ev = ev::parse(bytes);
    let mem = MemOp::of(insn).is_some();
    let imm8 = insn.op_kind(insn.head.op_count as usize - 1) == insn::KIND_IMM8;
    match special(form(insn.head.mnemonic, mem, imm8, ev), insn, bytes, &ev, tg.scratch) {
        Some(r) => r,
        None => from_table(insn, bytes, &ev, tg.scratch),
    }
}

/// Decodes the instruction at the start of `code`, taken to stand at `ip`,
/// and rewrites it; `None` where the bytes do not hold a whole vector or
/// mask instruction with the operands it takes.
pub fn rewrite_at(code: &[u8], ip: u64, tg: &Target) -> (res: Option<Result<Rewrite, Unsupported>>)
    ensures
        exists|d: Decoded| #[trigger] d.is_decoding_of(code@, ip) && (match res {
            Some(r) => d.rewritable(code@) && rewrite_outcome(d, code@, tg.scratch).is(d, r),
            None => !d.rewritable(code@),
        }),
{
    let d = insn::decode(code, ip);
    if d.is_rewritable(code) {
        let r = rewrite(&d, code, tg);
        assert(d.is_decoding_of(code@, ip));
        Some(r)
    } else {
        assert(d.is_decoding_of(code@, ip));
        None
    }
}

/// The bytes of the instruction itself.
pub open spec fn own_bytes(insn: Decoded, bytes: Seq<u8>) -> Seq<u8> {
    bytes.take(insn.head.len as int)
}

/// What a byte or word compare looks for.
pub open spec fn looks_for(insn: Decoded, bytes: Seq<u8>) -> Bytewise {
    bytewise::bytewise(insn.head.mnemonic, ev::parsed(bytes).map, insn.head.imm8)
}

/// The dword compare that finds elements that differ exactly where a byte or
/// word compare does: vpcmpd with the same predicate.
pub open spec fn dword_compare(insn: Decoded, bytes: Seq<u8>) -> Seq<u8> {
    own_bytes(insn, bytes).update(4, 0x1F).update(2, bytes[2] & 0x7f)
}

/// Whether what `code` decodes to at `ip` can be rewritten.
pub open spec fn decodes_rewritable(code: Seq<u8>, ip: u64) -> bool {
    forall|d: Decoded| #[trigger] d.is_decoding_of(code, ip) ==> d.rewritable(code)
}

/// Whether `insn` is encoded with EVEX and `bytes` hold at least the
/// shortest such instruction.
pub open spec fn long_evex(insn: Decoded, bytes: Seq<u8>) -> bool {
    insn.head.encoding == insn::ENCODING_EVEX && bytes.len() >= 6
}

/// Whether `res` is what a byte compare whose only consumer is `kortest`
/// becomes.
pub open spec fn bytes_compared(
    insn: Decoded,
    bytes: Seq<u8>,
    scratch: i32,
    res: Result<Rewrite, Unsupported>,
) -> bool {
    let ev = ev::parsed(bytes);
    if !long_evex(insn, bytes) {
        Outcome::Refused("not an EVEX instruction"@).is(insn, res)
    } else if looks_for(insn, bytes) is Other {
        Outcome::Refused("a byte or word compare the card cannot express"@).is(insn, res)
    } else if ev.aaa != 0 {
        Outcome::Refused("a byte or word mask: the card masks 32-bit lanes only"@).is(insn, res)
    } else {
        match looks_for(insn, bytes) {
            Bytewise::Equal { words } => bytewise::equal_outcome(insn, ev, words, scratch).is(
                insn,
                res,
            ),
            _ => {
                let v = dword_compare(insn, bytes);
                exists|d: Decoded| #[trigger]
                    d.is_decoding_of(v, insn.ip) && rewrite_outcome(d, v, scratch).is(d, res)
            },
        }
    }
}

/// Whether the byte or word compare can be taken: it lies whole in `bytes`,
/// its operands can be walked, and its dword form, where that is what it
/// becomes, is one that `rewrite` takes.
pub open spec fn comparable(insn: Decoded, bytes: Seq<u8>) -> bool {
    &&& 5 <= insn.head.len <= bytes.len()
    &&& insn.operable()
    &&& looks_for(insn, bytes) is Differ ==> decodes_rewritable(
        dword_compare(insn, bytes),
        insn.ip,
    )
}

/// The bytes of the dword compare.
fn as_dword_compare(insn: &Decoded, bytes: &[u8]) -> (v: Vec<u8>)
    requires
        5 <= insn.head.len <= bytes@.len(),
    ensures
        dword_compare(*insn, bytes@) == v@,
{
    let mut v: Vec<u8> = vstd::slice::slice_to_vec(
        vstd::slice::slice_subrange(bytes, 0, insn.head.len),
    );
    assert(v@ =~= own_bytes(*insn, bytes@));
    // vpcmpb / vpcmpub / vpcmpw / vpcmpuw (EVEX.66.0F3A 3F 3E; W1 for words):
    // vpcmpd (1F) with the same predicate
    v.set(4, 0x1F);
    v.set(2, bytes[2] & 0x7f);  // W0
    v
}

/// A byte or word compare for equality or inequality whose only consumer is
/// `kortestq`/`kortestd` on its result (a scan for a differing byte, as
/// compilers emit for memcmp-like loops): the card's masks are 16 bits, one
/// per dword, so the compare becomes one of dwords, whose result is zero
/// exactly when the byte compare's is. One for a difference becomes the dword
/// compare; one for equality looks for a zero byte in the bits that differ. A
/// byte or word mask is refused. The region builder checks the consumer and
/// calls this instead of `rewrite`.
pub fn rewrite_bytecmp_for_kortest(insn: &Decoded, bytes: &[u8], tg: &Target) -> (res: Result<
    Rewrite,
    Unsupported,
>)
    requires
        long_evex(*insn, bytes@) ==> comparable(*insn, bytes@),
    ensures
        bytes_compared(*insn, bytes@, tg.scratch, res),
{
    if insn.head.encoding != insn::ENCODING_EVEX || bytes.len() < 6 {
        return Err(code::refuse(insn, "not an EVEX instruction"));
    }
    let ev = ev::parse(bytes);
    let what = bytewise::bytewise(insn.head.mnemonic, ev.map, insn.head.imm8);
    if what == Bytewise::Other {
        return Err(code::refuse(insn, "a byte or word compare the card cannot express"));
    }
    if ev.aaa != 0 {
        return Err(
            code::refuse(insn, "a byte or word mask: the card masks 32-bit lanes only"),
        );
    }
    match what {
        Bytewise::Equal { words } => bytewise::equal(insn, &ev, words, tg.scratch),
        _ => {
            let v: Vec<u8> = as_dword_compare(insn, bytes);
            let dinsn = insn::decode(v.as_slice(), insn.ip);
            assert(dinsn.is_decoding_of(v@, insn.ip));
            rewrite(&dinsn, v.as_slice(), tg)
        },
    }
}

/// `rewrite_bytecmp_for_kortest`, where it applies: `None` where the
/// instruction does not lie whole in `bytes`, its operands cannot be walked,
/// or its dword form is not one that `rewrite` takes.
pub fn rewrite_bytecmp_checked(insn: &Decoded, bytes: &[u8], tg: &Target) -> (res: Option<
    Result<Rewrite, Unsupported>,
>)
    ensures
        match res {
            Some(r) => bytes_compared(*insn, bytes@, tg.scratch, r),
            None => long_evex(*insn, bytes@) && !comparable(*insn, bytes@),
        },
{
    if insn.head.encoding == insn::ENCODING_EVEX && bytes.len() >= 6 {
        if insn.head.len < 5 || insn.head.len > bytes.len() || !insn.is_operable() {
            return None;
        }
        let ev = ev::parse(bytes);
        if bytewise::bytewise(insn.head.mnemonic, ev.map, insn.head.imm8) == Bytewise::Differ {
            let v: Vec<u8> = as_dword_compare(insn, bytes);
            let d = insn::decode(v.as_slice(), insn.ip);
            assert(d.is_decoding_of(v@, insn.ip));
            if !d.is_rewritable(v.as_slice()) {
                return None;
            }
            assert forall|e: Decoded| #[trigger]
                e.is_decoding_of(v@, insn.ip) implies e.rewritable(v@) by {
                lemma_rewritable_of_decoding(d, e, v@, insn.ip);
            }
        }
    }
    Some(rewrite_bytecmp_for_kortest(insn, bytes, tg))
}

/// Whether an instruction can be rewritten is decided by what was decoded.
proof fn lemma_rewritable_of_decoding(d: Decoded, e: Decoded, code: Seq<u8>, ip: u64)
    requires
        d.is_decoding_of(code, ip),
        e.is_decoding_of(code, ip),
    ensures
        d.rewritable(code) == e.rewritable(code),
{
    assert(forall|i: int| d.kind(i) == e.kind(i));
    assert(forall|i: int| d.reg(i) == e.reg(i));
}

} // verus!
