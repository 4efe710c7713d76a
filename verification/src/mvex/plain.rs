//! The plain forms: loads and stores, float64 and float32 arithmetic,
//! int32 arithmetic and shifts, and the mask register moves. Every integer
//! vector instruction on this machine is 32-bit or 64-bit lanes: there are
//! no byte or word forms to encode.
//!
//! The float32 forms differ from the float64 forms in the two bits that
//! select the data type: no legacy prefix instead of 66, and W0 instead of
//! W1. The opcodes are the same, since EVEX uses the same pp and W fields
//! to make the same distinction.
use crate::mvex::encode;
use crate::mvex::encode::{Insn, InsnV, Map0, Opcode, Pp};
use crate::mvex::reg::{Conv, Gpr, Mem, Src, Zmm, K};
use vstd::prelude::*;

verus! {

impl InsnV {
    pub open spec fn vmovaps_store(mem: Mem, src: Zmm) -> InsnV {
        InsnV::store("vmovaps"@, (Opcode { map: Map0::M0F, pp: Pp::Bare, w: false, op: 0x29 }), mem, Conv::Plain, src, K(0))
    }

    pub open spec fn vmovnraps_store(mem: Mem, src: Zmm) -> InsnV {
        InsnV::store("vmovnraps"@, (Opcode { map: Map0::M0F, pp: Pp::Pf2, w: false, op: 0x29 }), mem, Conv::Plain, src, K(0))
    }

    pub open spec fn vmovaps_load(dst: Zmm, mem: Mem) -> InsnV {
        InsnV::load("vmovaps"@, (Opcode { map: Map0::M0F, pp: Pp::Bare, w: false, op: 0x28 }), dst, Src::Mem(mem), K(0))
    }

    pub open spec fn vmovapd_load(dst: Zmm, src: Src, k: K) -> InsnV {
        InsnV::load("vmovapd"@, (Opcode { map: Map0::M0F, pp: Pp::P66, w: true, op: 0x28 }), dst, src, k)
    }

    pub open spec fn vmovapd_store(mem: Mem, src: Zmm, k: K) -> InsnV {
        InsnV::store("vmovapd"@, (Opcode { map: Map0::M0F, pp: Pp::P66, w: true, op: 0x29 }), mem, Conv::Plain, src, k)
    }

    pub open spec fn vaddpd(dst: Zmm, src1: Zmm, src2: Src, k: K) -> InsnV {
        InsnV::three("vaddpd"@, (Opcode { map: Map0::M0F, pp: Pp::P66, w: true, op: 0x58 }), dst, src1, src2, k)
    }

    pub open spec fn vsubpd(dst: Zmm, src1: Zmm, src2: Src, k: K) -> InsnV {
        InsnV::three("vsubpd"@, (Opcode { map: Map0::M0F, pp: Pp::P66, w: true, op: 0x5c }), dst, src1, src2, k)
    }

    pub open spec fn vmulpd(dst: Zmm, src1: Zmm, src2: Src, k: K) -> InsnV {
        InsnV::three("vmulpd"@, (Opcode { map: Map0::M0F, pp: Pp::P66, w: true, op: 0x59 }), dst, src1, src2, k)
    }

    pub open spec fn vfmadd213pd(dst: Zmm, src1: Zmm, src2: Src, k: K) -> InsnV {
        InsnV::three("vfmadd213pd"@, (Opcode { map: Map0::M0F38, pp: Pp::P66, w: true, op: 0xa8 }), dst, src1, src2, k)
    }

    pub open spec fn vfmadd231pd(dst: Zmm, src1: Zmm, src2: Src, k: K) -> InsnV {
        InsnV::three("vfmadd231pd"@, (Opcode { map: Map0::M0F38, pp: Pp::P66, w: true, op: 0xb8 }), dst, src1, src2, k)
    }

    pub open spec fn vaddps(dst: Zmm, src1: Zmm, src2: Src, k: K) -> InsnV {
        InsnV::three("vaddps"@, (Opcode { map: Map0::M0F, pp: Pp::Bare, w: false, op: 0x58 }), dst, src1, src2, k)
    }

    pub open spec fn vsubps(dst: Zmm, src1: Zmm, src2: Src, k: K) -> InsnV {
        InsnV::three("vsubps"@, (Opcode { map: Map0::M0F, pp: Pp::Bare, w: false, op: 0x5c }), dst, src1, src2, k)
    }

    pub open spec fn vmulps(dst: Zmm, src1: Zmm, src2: Src, k: K) -> InsnV {
        InsnV::three("vmulps"@, (Opcode { map: Map0::M0F, pp: Pp::Bare, w: false, op: 0x59 }), dst, src1, src2, k)
    }

    pub open spec fn vfmadd213ps(dst: Zmm, src1: Zmm, src2: Src, k: K) -> InsnV {
        InsnV::three("vfmadd213ps"@, (Opcode { map: Map0::M0F38, pp: Pp::P66, w: false, op: 0xa8 }), dst, src1, src2, k)
    }

    pub open spec fn vfmadd231ps(dst: Zmm, src1: Zmm, src2: Src, k: K) -> InsnV {
        InsnV::three("vfmadd231ps"@, (Opcode { map: Map0::M0F38, pp: Pp::P66, w: false, op: 0xb8 }), dst, src1, src2, k)
    }

    pub open spec fn vpackstoreld(mem: Mem, src: Zmm, k: K) -> InsnV {
        InsnV::store("vpackstoreld"@, (Opcode { map: Map0::M0F38, pp: Pp::P66, w: false, op: 0xd0 }), mem, Conv::Plain, src, k)
    }

    pub open spec fn vpackstorehd(mem: Mem, src: Zmm, k: K) -> InsnV {
        InsnV::store("vpackstorehd"@, (Opcode { map: Map0::M0F38, pp: Pp::P66, w: false, op: 0xd4 }), mem, Conv::Plain, src, k)
    }

    pub open spec fn vpaddd(dst: Zmm, src1: Zmm, src2: Src, k: K) -> InsnV {
        InsnV::three("vpaddd"@, (Opcode { map: Map0::M0F, pp: Pp::P66, w: false, op: 0xfe }), dst, src1, src2, k)
    }

    pub open spec fn vpsubd(dst: Zmm, src1: Zmm, src2: Src, k: K) -> InsnV {
        InsnV::three("vpsubd"@, (Opcode { map: Map0::M0F, pp: Pp::P66, w: false, op: 0xfa }), dst, src1, src2, k)
    }

    pub open spec fn vpandd(dst: Zmm, src1: Zmm, src2: Src, k: K) -> InsnV {
        InsnV::three("vpandd"@, (Opcode { map: Map0::M0F, pp: Pp::P66, w: false, op: 0xdb }), dst, src1, src2, k)
    }

    pub open spec fn vpandnd(dst: Zmm, src1: Zmm, src2: Src, k: K) -> InsnV {
        InsnV::three("vpandnd"@, (Opcode { map: Map0::M0F, pp: Pp::P66, w: false, op: 0xdf }), dst, src1, src2, k)
    }

    pub open spec fn vpord(dst: Zmm, src1: Zmm, src2: Src, k: K) -> InsnV {
        InsnV::three("vpord"@, (Opcode { map: Map0::M0F, pp: Pp::P66, w: false, op: 0xeb }), dst, src1, src2, k)
    }

    pub open spec fn vpxord(dst: Zmm, src1: Zmm, src2: Src, k: K) -> InsnV {
        InsnV::three("vpxord"@, (Opcode { map: Map0::M0F, pp: Pp::P66, w: false, op: 0xef }), dst, src1, src2, k)
    }

    pub open spec fn vpsllvd(dst: Zmm, src1: Zmm, src2: Src, k: K) -> InsnV {
        InsnV::three("vpsllvd"@, (Opcode { map: Map0::M0F38, pp: Pp::P66, w: false, op: 0x47 }), dst, src1, src2, k)
    }

    pub open spec fn vpsrlvd(dst: Zmm, src1: Zmm, src2: Src, k: K) -> InsnV {
        InsnV::three("vpsrlvd"@, (Opcode { map: Map0::M0F38, pp: Pp::P66, w: false, op: 0x45 }), dst, src1, src2, k)
    }

    pub open spec fn vpslld(dst: Zmm, src: Src, count: u8, k: K) -> InsnV {
        InsnV::shift("vpslld"@, 6, dst, src, count, k)
    }

    pub open spec fn vpsrld(dst: Zmm, src: Src, count: u8, k: K) -> InsnV {
        InsnV::shift("vpsrld"@, 2, dst, src, count, k)
    }

    pub open spec fn vpsrad(dst: Zmm, src: Src, count: u8, k: K) -> InsnV {
        InsnV::shift("vpsrad"@, 4, dst, src, count, k)
    }

    pub open spec fn vloadunpackld(dst: Zmm, mem: Mem, k: K) -> InsnV {
        InsnV::load("vloadunpackld"@, (Opcode { map: Map0::M0F38, pp: Pp::Bare, w: false, op: 0xd0 }), dst, Src::Mem(mem), k)
    }

    pub open spec fn vloadunpackhd(dst: Zmm, mem: Mem, k: K) -> InsnV {
        InsnV::load("vloadunpackhd"@, (Opcode { map: Map0::M0F38, pp: Pp::Bare, w: false, op: 0xd4 }), dst, Src::Mem(mem), k)
    }

    pub open spec fn vpbroadcastd(dst: Zmm, mem: Mem, k: K) -> InsnV {
        InsnV::load("vpbroadcastd"@, (Opcode { map: Map0::M0F38, pp: Pp::P66, w: false, op: 0x58 }), dst, Src::Mem(mem), k)
    }

    pub open spec fn vmovnrngoaps_store(mem: Mem, src: Zmm) -> InsnV {
        let plain = InsnV::vmovnraps_store(mem, src).bytes;
        InsnV {
            bytes: plain.update(3, plain[3] | 0x80),
            text: "vmovnrngoaps "@ + mem.spec_text() + ", "@ + src.spec_text(),
        }
    }

    pub open spec fn kmov_r32_k(dst: Gpr, src: K) -> InsnV {
        InsnV {
            bytes: encode::vex_k_bytes(0x93, dst.spec_num(), src.0),
            text: "kmov "@ + dst.spec_name32() + ", "@ + src.spec_text(),
        }
    }

    pub open spec fn kmov_k_r32(dst: K, src: Gpr) -> InsnV {
        InsnV {
            bytes: encode::vex_k_bytes(0x92, dst.0, src.spec_num()),
            text: "kmov "@ + dst.spec_text() + ", "@ + src.spec_name32(),
        }
    }

    pub open spec fn kmov_k_k(dst: K, src: K) -> InsnV {
        InsnV {
            bytes: encode::vex_k_bytes(0x90, dst.0, src.0),
            text: "kmov "@ + dst.spec_text() + ", "@ + src.spec_text(),
        }
    }

    pub open spec fn kortest(a: K, b: K) -> InsnV {
        InsnV {
            bytes: encode::vex_k_bytes(0x98, a.0, b.0),
            text: "kortest "@ + a.spec_text() + ", "@ + b.spec_text(),
        }
    }
}

/// `vmovaps mt, zmm`: store 64 bytes. The form Intel's kernel uses.
pub fn vmovaps_store(mem: Mem, src: Zmm) -> (i: Insn)
    requires
        src.ok(),
    ensures
        i@ == InsnV::vmovaps_store(mem, src),
{
    encode::store("vmovaps", Opcode { map: Map0::M0F, pp: Pp::Bare, w: false, op: 0x29 }, mem, Conv::Plain, src, K(0))
}

/// `vmovnraps mt, zmm`: store 64 bytes with a no-read hint
/// (MVEX.512.F2.0F.W0.EH0 29 /r, ISA reference 327364-001 page 390).
///
/// The hint only takes effect when there is no write-mask and no
/// down-conversion, which is why `aaa` and `SSS` are both zero here and
/// there is no masked form.
pub fn vmovnraps_store(mem: Mem, src: Zmm) -> (i: Insn)
    requires
        src.ok(),
    ensures
        i@ == InsnV::vmovnraps_store(mem, src),
{
    encode::store("vmovnraps", Opcode { map: Map0::M0F, pp: Pp::Pf2, w: false, op: 0x29 }, mem, Conv::Plain, src, K(0))
}

/// `vmovaps zmm, mt`: load 64 bytes.
pub fn vmovaps_load(dst: Zmm, mem: Mem) -> (i: Insn)
    requires
        dst.ok(),
    ensures
        i@ == InsnV::vmovaps_load(dst, mem),
{
    encode::load("vmovaps", Opcode { map: Map0::M0F, pp: Pp::Bare, w: false, op: 0x28 }, dst, Src::Mem(mem), K(0))
}

/// `vmovapd zmm1 {k}, zmm2/mt`: float64 vector move (MVEX.512.66.0F.W1 28).
pub fn vmovapd_load(dst: Zmm, src: Src, k: K) -> (i: Insn)
    requires
        dst.ok(),
        k.ok(),
        src.ok(),
    ensures
        i@ == InsnV::vmovapd_load(dst, src, k),
{
    encode::load("vmovapd", Opcode { map: Map0::M0F, pp: Pp::P66, w: true, op: 0x28 }, dst, src, k)
}

/// `vmovapd mt {k}, zmm1`: float64 vector store (MVEX.512.66.0F.W1 29).
pub fn vmovapd_store(mem: Mem, src: Zmm, k: K) -> (i: Insn)
    requires
        src.ok(),
        k.ok(),
    ensures
        i@ == InsnV::vmovapd_store(mem, src, k),
{
    encode::store("vmovapd", Opcode { map: Map0::M0F, pp: Pp::P66, w: true, op: 0x29 }, mem, Conv::Plain, src, k)
}

/// `vaddpd zmm1 {k}, zmm2, zmm3/mt` (MVEX.NDS.512.66.0F.W1 58).
pub fn vaddpd(dst: Zmm, src1: Zmm, src2: Src, k: K) -> (i: Insn)
    requires
        dst.ok(),
        src1.ok(),
        src2.ok(),
        k.ok(),
    ensures
        i@ == InsnV::vaddpd(dst, src1, src2, k),
{
    encode::three("vaddpd", Opcode { map: Map0::M0F, pp: Pp::P66, w: true, op: 0x58 }, dst, src1, src2, k)
}

/// `vsubpd zmm1 {k}, zmm2, zmm3/mt` (MVEX.NDS.512.66.0F.W1 5C).
pub fn vsubpd(dst: Zmm, src1: Zmm, src2: Src, k: K) -> (i: Insn)
    requires
        dst.ok(),
        src1.ok(),
        src2.ok(),
        k.ok(),
    ensures
        i@ == InsnV::vsubpd(dst, src1, src2, k),
{
    encode::three("vsubpd", Opcode { map: Map0::M0F, pp: Pp::P66, w: true, op: 0x5c }, dst, src1, src2, k)
}

/// `vmulpd zmm1 {k}, zmm2, zmm3/mt` (MVEX.NDS.512.66.0F.W1 59).
pub fn vmulpd(dst: Zmm, src1: Zmm, src2: Src, k: K) -> (i: Insn)
    requires
        dst.ok(),
        src1.ok(),
        src2.ok(),
        k.ok(),
    ensures
        i@ == InsnV::vmulpd(dst, src1, src2, k),
{
    encode::three("vmulpd", Opcode { map: Map0::M0F, pp: Pp::P66, w: true, op: 0x59 }, dst, src1, src2, k)
}

/// `vfmadd213pd zmm1 {k}, zmm2, zmm3/mt`: zmm1 = zmm2 * zmm1 + zmm3
/// (MVEX.NDS.512.66.0F38.W1 A8).
pub fn vfmadd213pd(dst: Zmm, src1: Zmm, src2: Src, k: K) -> (i: Insn)
    requires
        dst.ok(),
        src1.ok(),
        src2.ok(),
        k.ok(),
    ensures
        i@ == InsnV::vfmadd213pd(dst, src1, src2, k),
{
    encode::three("vfmadd213pd", Opcode { map: Map0::M0F38, pp: Pp::P66, w: true, op: 0xa8 }, dst, src1, src2, k)
}

/// `vfmadd231pd zmm1 {k}, zmm2, zmm3/mt`: zmm1 = zmm2 * zmm3 + zmm1
/// (MVEX.NDS.512.66.0F38.W1 B8).
pub fn vfmadd231pd(dst: Zmm, src1: Zmm, src2: Src, k: K) -> (i: Insn)
    requires
        dst.ok(),
        src1.ok(),
        src2.ok(),
        k.ok(),
    ensures
        i@ == InsnV::vfmadd231pd(dst, src1, src2, k),
{
    encode::three("vfmadd231pd", Opcode { map: Map0::M0F38, pp: Pp::P66, w: true, op: 0xb8 }, dst, src1, src2, k)
}

/// `vaddps zmm1 {k}, zmm2, zmm3/mt` (MVEX.NDS.512.0F.W0 58 /r).
pub fn vaddps(dst: Zmm, src1: Zmm, src2: Src, k: K) -> (i: Insn)
    requires
        dst.ok(),
        src1.ok(),
        src2.ok(),
        k.ok(),
    ensures
        i@ == InsnV::vaddps(dst, src1, src2, k),
{
    encode::three("vaddps", Opcode { map: Map0::M0F, pp: Pp::Bare, w: false, op: 0x58 }, dst, src1, src2, k)
}

/// `vsubps zmm1 {k}, zmm2, zmm3/mt` (MVEX.NDS.512.0F.W0 5C /r).
pub fn vsubps(dst: Zmm, src1: Zmm, src2: Src, k: K) -> (i: Insn)
    requires
        dst.ok(),
        src1.ok(),
        src2.ok(),
        k.ok(),
    ensures
        i@ == InsnV::vsubps(dst, src1, src2, k),
{
    encode::three("vsubps", Opcode { map: Map0::M0F, pp: Pp::Bare, w: false, op: 0x5c }, dst, src1, src2, k)
}

/// `vmulps zmm1 {k}, zmm2, zmm3/mt` (MVEX.NDS.512.0F.W0 59 /r).
pub fn vmulps(dst: Zmm, src1: Zmm, src2: Src, k: K) -> (i: Insn)
    requires
        dst.ok(),
        src1.ok(),
        src2.ok(),
        k.ok(),
    ensures
        i@ == InsnV::vmulps(dst, src1, src2, k),
{
    encode::three("vmulps", Opcode { map: Map0::M0F, pp: Pp::Bare, w: false, op: 0x59 }, dst, src1, src2, k)
}

/// `vfmadd213ps zmm1 {k}, zmm2, zmm3/mt`: zmm1 = zmm2 * zmm1 + zmm3
/// (MVEX.NDS.512.66.0F38.W0 A8 /r). This is the Horner form: the
/// accumulator is both a source and the destination.
pub fn vfmadd213ps(dst: Zmm, src1: Zmm, src2: Src, k: K) -> (i: Insn)
    requires
        dst.ok(),
        src1.ok(),
        src2.ok(),
        k.ok(),
    ensures
        i@ == InsnV::vfmadd213ps(dst, src1, src2, k),
{
    encode::three("vfmadd213ps", Opcode { map: Map0::M0F38, pp: Pp::P66, w: false, op: 0xa8 }, dst, src1, src2, k)
}

/// `vfmadd231ps zmm1 {k}, zmm2, zmm3/mt`: zmm1 = zmm2 * zmm3 + zmm1
/// (MVEX.NDS.512.66.0F38.W0 B8 /r).
///
/// Note the 66 prefix, which `vaddps` and the other 0F-map float32 forms do
/// not carry. The float32 and float64 FMAs are separated by W alone.
pub fn vfmadd231ps(dst: Zmm, src1: Zmm, src2: Src, k: K) -> (i: Insn)
    requires
        dst.ok(),
        src1.ok(),
        src2.ok(),
        k.ok(),
    ensures
        i@ == InsnV::vfmadd231ps(dst, src1, src2, k),
{
    encode::three("vfmadd231ps", Opcode { map: Map0::M0F38, pp: Pp::P66, w: false, op: 0xb8 }, dst, src1, src2, k)
}

/// `vpackstoreld mt {k}, zmm1` (MVEX.512.66.0F38.W0 D0 /r) and
/// `vpackstorehd` (D4 /r) are the store half of the unaligned pair, the
/// mirror of `vloadunpackld` and `vloadunpackhd`. The low form writes the
/// part of the stream that lands in the cache line containing `mt`, the
/// high form the part in the line containing `mt + 64`.
///
/// Unlike the load pair these carry a 66 prefix, which is easy to get
/// wrong: the loads are `MVEX.512.0F38.W0` and the stores are
/// `MVEX.512.66.0F38.W0`, same opcodes, different prefix.
pub fn vpackstoreld(mem: Mem, src: Zmm, k: K) -> (i: Insn)
    requires
        src.ok(),
        k.ok(),
    ensures
        i@ == InsnV::vpackstoreld(mem, src, k),
{
    encode::store("vpackstoreld", Opcode { map: Map0::M0F38, pp: Pp::P66, w: false, op: 0xd0 }, mem, Conv::Plain, src, k)
}

/// The high half of the unaligned store pair; see `vpackstoreld`. The
/// address passed is 64 bytes above the one given to the low half.
pub fn vpackstorehd(mem: Mem, src: Zmm, k: K) -> (i: Insn)
    requires
        src.ok(),
        k.ok(),
    ensures
        i@ == InsnV::vpackstorehd(mem, src, k),
{
    encode::store("vpackstorehd", Opcode { map: Map0::M0F38, pp: Pp::P66, w: false, op: 0xd4 }, mem, Conv::Plain, src, k)
}

/// `vpaddd zmm1 {k}, zmm2, zmm3/mt` (MVEX.NDS.512.66.0F.W0 FE /r).
pub fn vpaddd(dst: Zmm, src1: Zmm, src2: Src, k: K) -> (i: Insn)
    requires
        dst.ok(),
        src1.ok(),
        src2.ok(),
        k.ok(),
    ensures
        i@ == InsnV::vpaddd(dst, src1, src2, k),
{
    encode::three("vpaddd", Opcode { map: Map0::M0F, pp: Pp::P66, w: false, op: 0xfe }, dst, src1, src2, k)
}

/// `vpsubd zmm1 {k}, zmm2, zmm3/mt`: zmm2 - src (MVEX.NDS.512.66.0F.W0 FA /r).
pub fn vpsubd(dst: Zmm, src1: Zmm, src2: Src, k: K) -> (i: Insn)
    requires
        dst.ok(),
        src1.ok(),
        src2.ok(),
        k.ok(),
    ensures
        i@ == InsnV::vpsubd(dst, src1, src2, k),
{
    encode::three("vpsubd", Opcode { map: Map0::M0F, pp: Pp::P66, w: false, op: 0xfa }, dst, src1, src2, k)
}

/// `vpandd zmm1 {k}, zmm2, zmm3/mt` (MVEX.NDS.512.66.0F.W0 DB /r).
pub fn vpandd(dst: Zmm, src1: Zmm, src2: Src, k: K) -> (i: Insn)
    requires
        dst.ok(),
        src1.ok(),
        src2.ok(),
        k.ok(),
    ensures
        i@ == InsnV::vpandd(dst, src1, src2, k),
{
    encode::three("vpandd", Opcode { map: Map0::M0F, pp: Pp::P66, w: false, op: 0xdb }, dst, src1, src2, k)
}

/// `vpandnd zmm1 {k}, zmm2, zmm3/mt`: `(!zmm2) & src`, note the order
/// (MVEX.NDS.512.66.0F.W0 DF /r).
pub fn vpandnd(dst: Zmm, src1: Zmm, src2: Src, k: K) -> (i: Insn)
    requires
        dst.ok(),
        src1.ok(),
        src2.ok(),
        k.ok(),
    ensures
        i@ == InsnV::vpandnd(dst, src1, src2, k),
{
    encode::three("vpandnd", Opcode { map: Map0::M0F, pp: Pp::P66, w: false, op: 0xdf }, dst, src1, src2, k)
}

/// `vpord zmm1 {k}, zmm2, zmm3/mt` (MVEX.NDS.512.66.0F.W0 EB /r).
pub fn vpord(dst: Zmm, src1: Zmm, src2: Src, k: K) -> (i: Insn)
    requires
        dst.ok(),
        src1.ok(),
        src2.ok(),
        k.ok(),
    ensures
        i@ == InsnV::vpord(dst, src1, src2, k),
{
    encode::three("vpord", Opcode { map: Map0::M0F, pp: Pp::P66, w: false, op: 0xeb }, dst, src1, src2, k)
}

/// `vpxord zmm1 {k}, zmm2, zmm3/mt` (MVEX.NDS.512.66.0F.W0 EF /r).
pub fn vpxord(dst: Zmm, src1: Zmm, src2: Src, k: K) -> (i: Insn)
    requires
        dst.ok(),
        src1.ok(),
        src2.ok(),
        k.ok(),
    ensures
        i@ == InsnV::vpxord(dst, src1, src2, k),
{
    encode::three("vpxord", Opcode { map: Map0::M0F, pp: Pp::P66, w: false, op: 0xef }, dst, src1, src2, k)
}

/// `vpsllvd zmm1 {k}, zmm2, zmm3/mt`: per-lane variable left shift, count
/// taken from the second source; a count above 31 gives zero
/// (MVEX.NDS.512.66.0F38.W0 47 /r).
pub fn vpsllvd(dst: Zmm, src1: Zmm, src2: Src, k: K) -> (i: Insn)
    requires
        dst.ok(),
        src1.ok(),
        src2.ok(),
        k.ok(),
    ensures
        i@ == InsnV::vpsllvd(dst, src1, src2, k),
{
    encode::three("vpsllvd", Opcode { map: Map0::M0F38, pp: Pp::P66, w: false, op: 0x47 }, dst, src1, src2, k)
}

/// `vpsrlvd zmm1 {k}, zmm2, zmm3/mt`: per-lane variable logical right shift
/// (MVEX.NDS.512.66.0F38.W0 45 /r).
pub fn vpsrlvd(dst: Zmm, src1: Zmm, src2: Src, k: K) -> (i: Insn)
    requires
        dst.ok(),
        src1.ok(),
        src2.ok(),
        k.ok(),
    ensures
        i@ == InsnV::vpsrlvd(dst, src1, src2, k),
{
    encode::three("vpsrlvd", Opcode { map: Map0::M0F38, pp: Pp::P66, w: false, op: 0x45 }, dst, src1, src2, k)
}

/// `vpslld zmm1 {k}, zmm2/mt, imm8` (MVEX.NDD.512.66.0F.W0 72 /6 ib).
pub fn vpslld(dst: Zmm, src: Src, count: u8, k: K) -> (i: Insn)
    requires
        dst.ok(),
        src.ok(),
        k.ok(),
    ensures
        i@ == InsnV::vpslld(dst, src, count, k),
{
    encode::shift_imm("vpslld", 6, dst, src, count, k)
}

/// `vpsrld zmm1 {k}, zmm2/mt, imm8` (MVEX.NDD.512.66.0F.W0 72 /2 ib).
pub fn vpsrld(dst: Zmm, src: Src, count: u8, k: K) -> (i: Insn)
    requires
        dst.ok(),
        src.ok(),
        k.ok(),
    ensures
        i@ == InsnV::vpsrld(dst, src, count, k),
{
    encode::shift_imm("vpsrld", 2, dst, src, count, k)
}

/// `vpsrad zmm1 {k}, zmm2/mt, imm8`: arithmetic, so the sign bit fills
/// (MVEX.NDD.512.66.0F.W0 72 /4 ib).
pub fn vpsrad(dst: Zmm, src: Src, count: u8, k: K) -> (i: Insn)
    requires
        dst.ok(),
        src.ok(),
        k.ok(),
    ensures
        i@ == InsnV::vpsrad(dst, src, count, k),
{
    encode::shift_imm("vpsrad", 4, dst, src, count, k)
}

/// `vloadunpackld zmm1 {k}, mt` (MVEX.512.0F38.W0 D0 /r) and `vloadunpackhd`
/// (D4 /r) are the KNC unaligned 64-byte load: the low form takes the part
/// of the stream in the cache line containing `mt`, the high form the part
/// in the line containing `mt + 64`, and together with no write mask they
/// fill all sixteen lanes. `vmovaps` cannot be used instead, because it
/// faults unless the address is 64-byte aligned.
///
/// Three encoding constraints from the ISA reference (VLOADUNPACKLD):
/// no legacy prefix (a 66 prefix is `#UD`), `SSS = 000` for "no conversion",
/// and the address must still be element-aligned (4 bytes here) or `#GP`.
///
/// The pair always touches the whole of both cache lines, so it reads up to
/// 63 bytes past the end of the intended 64, which the caller must have
/// mapped.
pub fn vloadunpackld(dst: Zmm, mem: Mem, k: K) -> (i: Insn)
    requires
        dst.ok(),
        k.ok(),
    ensures
        i@ == InsnV::vloadunpackld(dst, mem, k),
{
    encode::load("vloadunpackld", Opcode { map: Map0::M0F38, pp: Pp::Bare, w: false, op: 0xd0 }, dst, Src::Mem(mem), k)
}

/// The high half of the unaligned load pair; see `vloadunpackld`. The
/// address passed is 64 bytes above the one given to the low half.
pub fn vloadunpackhd(dst: Zmm, mem: Mem, k: K) -> (i: Insn)
    requires
        dst.ok(),
        k.ok(),
    ensures
        i@ == InsnV::vloadunpackhd(dst, mem, k),
{
    encode::load("vloadunpackhd", Opcode { map: Map0::M0F38, pp: Pp::Bare, w: false, op: 0xd4 }, dst, Src::Mem(mem), k)
}

/// `vpbroadcastd zmm1 {k}, mt` (MVEX.512.66.0F38.W0 58 /r): splat one
/// 32-bit element from memory into all sixteen lanes. The source is always
/// memory, never a register, so there is no `Src` here.
pub fn vpbroadcastd(dst: Zmm, mem: Mem, k: K) -> (i: Insn)
    requires
        dst.ok(),
        k.ok(),
    ensures
        i@ == InsnV::vpbroadcastd(dst, mem, k),
{
    encode::load("vpbroadcastd", Opcode { map: Map0::M0F38, pp: Pp::P66, w: false, op: 0x58 }, dst, Src::Mem(mem), k)
}

/// `vmovnrngoaps mt, zmm`: the no-read store, not globally ordered
/// (MVEX.512.F2.0F.W0.EH1 29 /r, ISA reference 327364-001 page 396).
///
/// Identical encoding to `vmovnraps` except for the EH bit, which is bit
/// 7 of P2. Stores done this way are weakly ordered, so a fence is needed
/// before anything else may observe the memory; the reference suggests
/// `lock add $0, (%rsp)`, which is what the memset kernel uses.
pub fn vmovnrngoaps_store(mem: Mem, src: Zmm) -> (i: Insn)
    requires
        src.ok(),
    ensures
        i@ == InsnV::vmovnrngoaps_store(mem, src),
{
    let mut bytes = vmovnraps_store(mem, src).bytes;
    let p2: u8 = bytes[3];
    bytes.set(3, p2 | 0x80);  // EH
    let mut t = String::from_str("vmovnrngoaps ");
    mem.push(&mut t);
    t.append(", ");
    src.push(&mut t);
    Insn { bytes, text: t }
}

/// `kmov r32, k` (VEX.128.0F.W0 93 /r).
pub fn kmov_r32_k(dst: Gpr, src: K) -> (i: Insn)
    requires
        dst.num() < 8,
        src.ok(),
    ensures
        i@ == InsnV::kmov_r32_k(dst, src),
{
    let mut t = String::from_str("kmov ");
    t.append(dst.name32());
    t.append(", ");
    src.push(&mut t);
    Insn { bytes: encode::vex_k(0x93, dst.num(), src.0), text: t }
}

/// `kmov k, r32` (VEX.128.0F.W0 92 /r).
pub fn kmov_k_r32(dst: K, src: Gpr) -> (i: Insn)
    requires
        dst.ok(),
        src.num() < 8,
    ensures
        i@ == InsnV::kmov_k_r32(dst, src),
{
    let mut t = String::from_str("kmov ");
    dst.push(&mut t);
    t.append(", ");
    t.append(src.name32());
    Insn { bytes: encode::vex_k(0x92, dst.0, src.num()), text: t }
}

/// `kmov k1, k2` (VEX.128.0F.W0 90 /r).
pub fn kmov_k_k(dst: K, src: K) -> (i: Insn)
    requires
        dst.ok(),
        src.ok(),
    ensures
        i@ == InsnV::kmov_k_k(dst, src),
{
    let mut t = String::from_str("kmov ");
    dst.push(&mut t);
    t.append(", ");
    src.push(&mut t);
    Insn { bytes: encode::vex_k(0x90, dst.0, src.0), text: t }
}

/// `kortest k1, k2`: ZF = ((k1 | k2) == 0), CF = ((k1 | k2) == all ones)
/// (VEX.128.0F.W0 98 /r).
pub fn kortest(a: K, b: K) -> (i: Insn)
    requires
        a.ok(),
        b.ok(),
    ensures
        i@ == InsnV::kortest(a, b),
{
    let mut t = String::from_str("kortest ");
    a.push(&mut t);
    t.append(", ");
    b.push(&mut t);
    Insn { bytes: encode::vex_k(0x98, a.0, b.0), text: t }
}

} // verus!
