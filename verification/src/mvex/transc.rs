//! The two transcendental approximations a SwiGLU needs, which Knights
//! Corner has as single instructions and AVX-512 does not (its nearest are
//! the AVX-512ER forms of Knights Landing, which are different encodings).
use crate::mvex::encode;
use crate::mvex::encode::{Insn, InsnV, Map0, Opcode, Pp};
use crate::mvex::reg::{Src, Zmm, K};
use vstd::prelude::*;

verus! {

impl InsnV {
    pub open spec fn vexp223ps(dst: Zmm, src: Zmm, k: K) -> InsnV {
        InsnV::load("vexp223ps"@, (Opcode { map: Map0::M0F38, pp: Pp::P66, w: false, op: 0xc8 }), dst, Src::Reg(src), k)
    }

    pub open spec fn vrcp23ps(dst: Zmm, src: Zmm, k: K) -> InsnV {
        InsnV::load("vrcp23ps"@, (Opcode { map: Map0::M0F38, pp: Pp::P66, w: false, op: 0xca }), dst, Src::Reg(src), k)
    }
}

/// `vexp223ps zmm1 {k}, zmm2/mt`: 2 to the power of each int32 lane, read
/// as a fixed-point number with 24 fraction bits, as float32 with 0.99 ULP
/// relative error (MVEX.512.66.0F38.W0 C8 /r; ISA reference 327364-001,
/// page 190). The input comes from `vcvtfxpntps2dq` with the exponent
/// adjustment `ExpAdj::Q8_24`, which is Intel's two-instruction exp2; its
/// saturation is what makes the pair safe at any input (INT_MAX gives
/// +inf, INT_MIN gives +0, same page).
///
/// Register operands only: the page's swizzle table has no form but "no
/// swizzle" for this instruction.
pub fn vexp223ps(dst: Zmm, src: Zmm, k: K) -> (i: Insn)
    requires
        dst.ok(),
        k.ok(),
        src.ok(),
    ensures
        i@ == InsnV::vexp223ps(dst, src, k),
{
    encode::load("vexp223ps", Opcode { map: Map0::M0F38, pp: Pp::P66, w: false, op: 0xc8 }, dst, Src::Reg(src), k)
}

/// `vrcp23ps zmm1 {k}, zmm2/mt`: the reciprocal of each float32 lane with
/// 0.912 ULP relative error (MVEX.512.66.0F38.W0 CA /r; ISA reference
/// 327364-001, page 577). Plus or minus infinity gives 0 and a zero gives
/// infinity of its sign, which is what a sigmoid wants at its ends.
///
/// The page says any SwizzUpConv other than "no broadcast and no
/// conversion" raises an invalid-opcode exception, so like `vexp223ps`
/// this takes a register only.
pub fn vrcp23ps(dst: Zmm, src: Zmm, k: K) -> (i: Insn)
    requires
        dst.ok(),
        k.ok(),
        src.ok(),
    ensures
        i@ == InsnV::vrcp23ps(dst, src, k),
{
    encode::load("vrcp23ps", Opcode { map: Map0::M0F38, pp: Pp::P66, w: false, op: 0xca }, dst, Src::Reg(src), k)
}

} // verus!
