//! Memory operands read through the card's up-conversions and broadcasts,
//! and the instructions the quantized matrix-multiply kernels need beyond
//! the plain forms: integer to float and float rounding, the negated and
//! subtracting fused multiply-adds, and the int32 move.
use crate::mvex::encode;
use crate::mvex::encode::{Insn, InsnV, Map0, Opcode, Pp};
use crate::mvex::reg::{Conv, Mem, Src, Zmm, K};
use crate::text;
use vstd::prelude::*;

verus! {

/// Rounding modes of `vrndfxpntps` (the two low bits of its immediate).
#[derive(Clone, Copy, Debug, PartialEq, Eq, Structural)]
pub enum Round {
    Nearest,
    Down,
    Up,
    Zero,
}

impl Round {
    pub open spec fn spec_num(self) -> u8 {
        match self {
            Round::Nearest => 0,
            Round::Down => 1,
            Round::Up => 2,
            Round::Zero => 3,
        }
    }

    /// The two bits of the immediate.
    #[verifier::when_used_as_spec(spec_num)]
    pub fn num(self) -> (n: u8)
        ensures
            n == self.spec_num(),
    {
        match self {
            Round::Nearest => 0,
            Round::Down => 1,
            Round::Up => 2,
            Round::Zero => 3,
        }
    }

    pub open spec fn spec_text(self) -> Seq<char> {
        match self {
            Round::Nearest => "0"@,
            Round::Down => "1"@,
            Round::Up => "2"@,
            Round::Zero => "3"@,
        }
    }

    /// The two bits as a number.
    pub fn text(self) -> (s: &'static str)
        ensures
            s@ == self.spec_text(),
    {
        match self {
            Round::Nearest => "0",
            Round::Down => "1",
            Round::Up => "2",
            Round::Zero => "3",
        }
    }
}

/// The exponent adjustment of `vcvtfxpntps2dq`: bits I6..I4 of its
/// immediate, which scale the float by 2^n before the conversion so the
/// integer it produces is a fixed-point number with n fraction bits (ISA
/// reference 327364-001, page 169, the "Exponent Adjustment" table; 1xxx
/// in I7..I4 is reserved and must raise an invalid opcode, so it has no
/// variant here). `Q8_24` is the one `vexp223ps` reads (page 190).
#[derive(Clone, Copy, Debug, PartialEq, Eq, Structural)]
pub enum ExpAdj {
    /// No adjustment.
    Plain,
    Q28_4,
    Q27_5,
    Q24_8,
    Q16_16,
    Q8_24,
    Q1_31,
    Q0_32,
}

impl ExpAdj {
    pub open spec fn spec_num(self) -> u8 {
        match self {
            ExpAdj::Plain => 0,
            ExpAdj::Q28_4 => 1,
            ExpAdj::Q27_5 => 2,
            ExpAdj::Q24_8 => 3,
            ExpAdj::Q16_16 => 4,
            ExpAdj::Q8_24 => 5,
            ExpAdj::Q1_31 => 6,
            ExpAdj::Q0_32 => 7,
        }
    }

    /// The three bits of the immediate.
    #[verifier::when_used_as_spec(spec_num)]
    pub fn num(self) -> (n: u8)
        ensures
            n == self.spec_num(),
    {
        match self {
            ExpAdj::Plain => 0,
            ExpAdj::Q28_4 => 1,
            ExpAdj::Q27_5 => 2,
            ExpAdj::Q24_8 => 3,
            ExpAdj::Q16_16 => 4,
            ExpAdj::Q8_24 => 5,
            ExpAdj::Q1_31 => 6,
            ExpAdj::Q0_32 => 7,
        }
    }
}

/// Which cache a prefetch fills: `vprefetch0` the L1 (MVEX.512.0F.W0 18 /1),
/// `vprefetch1` the L2 (/2). The card's cores are in order and its L1 has
/// no hardware prefetcher, so a stream that is not prefetched stalls for
/// the whole GDDR latency on every line.
#[derive(Clone, Copy, Debug, PartialEq, Eq, Structural)]
pub enum Cache {
    L1,
    L2,
}

impl InsnV {
    pub open spec fn vmovaps_load_conv(dst: Zmm, mem: Mem, conv: Conv, k: K) -> InsnV {
        InsnV::load("vmovaps"@, (Opcode { map: Map0::M0F, pp: Pp::Bare, w: false, op: 0x28 }), dst, Src::MemConv(mem, conv), k)
    }

    pub open spec fn vmovaps_load_f16(dst: Zmm, mem: Mem) -> InsnV {
        InsnV::vmovaps_load_conv(dst, mem, Conv::F16, K(0))
    }

    pub open spec fn vmovdqa32_load_conv(dst: Zmm, mem: Mem, conv: Conv, k: K) -> InsnV {
        InsnV::load("vmovdqa32"@, (Opcode { map: Map0::M0F, pp: Pp::P66, w: false, op: 0x6f }), dst, Src::MemConv(mem, conv), k)
    }

    pub open spec fn vloadunpackld_conv(dst: Zmm, mem: Mem, conv: Conv, k: K) -> InsnV {
        InsnV::load("vloadunpackld"@, (Opcode { map: Map0::M0F38, pp: Pp::Bare, w: false, op: 0xd0 }), dst, Src::MemConv(mem, conv), k)
    }

    pub open spec fn vloadunpackhd_conv(dst: Zmm, mem: Mem, conv: Conv, k: K) -> InsnV {
        InsnV::load("vloadunpackhd"@, (Opcode { map: Map0::M0F38, pp: Pp::Bare, w: false, op: 0xd4 }), dst, Src::MemConv(mem, conv), k)
    }

    pub open spec fn vcvtfxpntdq2ps(dst: Zmm, src: Src, k: K) -> InsnV {
        InsnV::load_imm("vcvtfxpntdq2ps"@, (Opcode { map: Map0::M0F3A, pp: Pp::Bare, w: false, op: 0xcb }), dst, src, k, 0, "0"@)
    }

    pub open spec fn vrndfxpntps(dst: Zmm, src: Src, mode: Round, k: K) -> InsnV {
        InsnV::load_imm("vrndfxpntps"@, (Opcode { map: Map0::M0F3A, pp: Pp::P66, w: false, op: 0x52 }), dst, src, k, mode.spec_num(), mode.spec_text())
    }

    pub open spec fn vfnmadd231ps(dst: Zmm, src1: Zmm, src2: Src, k: K) -> InsnV {
        InsnV::three("vfnmadd231ps"@, (Opcode { map: Map0::M0F38, pp: Pp::P66, w: false, op: 0xbc }), dst, src1, src2, k)
    }

    pub open spec fn vfmsub213ps(dst: Zmm, src1: Zmm, src2: Src, k: K) -> InsnV {
        InsnV::three("vfmsub213ps"@, (Opcode { map: Map0::M0F38, pp: Pp::P66, w: false, op: 0xaa }), dst, src1, src2, k)
    }

    pub open spec fn vfmsub231ps(dst: Zmm, src1: Zmm, src2: Src, k: K) -> InsnV {
        InsnV::three("vfmsub231ps"@, (Opcode { map: Map0::M0F38, pp: Pp::P66, w: false, op: 0xba }), dst, src1, src2, k)
    }

    pub open spec fn vpermd(dst: Zmm, idx: Zmm, src2: Src, k: K) -> InsnV {
        InsnV::three("vpermd"@, (Opcode { map: Map0::M0F38, pp: Pp::P66, w: false, op: 0x36 }), dst, idx, src2, k)
    }

    pub open spec fn vcvtfxpntps2dq(dst: Zmm, src: Src, mode: Round, k: K) -> InsnV {
        InsnV::load_imm("vcvtfxpntps2dq"@, (Opcode { map: Map0::M0F3A, pp: Pp::P66, w: false, op: 0xcb }), dst, src, k, mode.spec_num(), mode.spec_text())
    }

    pub open spec fn vmovaps_store_conv(mem: Mem, src: Zmm, conv: Conv, k: K) -> InsnV {
        InsnV::store("vmovaps"@, (Opcode { map: Map0::M0F, pp: Pp::Bare, w: false, op: 0x29 }), mem, conv, src, k)
    }

    pub open spec fn vloadunpacklps_conv(dst: Zmm, mem: Mem, conv: Conv, k: K) -> InsnV {
        InsnV::load("vloadunpacklps"@, (Opcode { map: Map0::M0F38, pp: Pp::Bare, w: false, op: 0xd1 }), dst, Src::MemConv(mem, conv), k)
    }

    pub open spec fn vloadunpackhps_conv(dst: Zmm, mem: Mem, conv: Conv, k: K) -> InsnV {
        InsnV::load("vloadunpackhps"@, (Opcode { map: Map0::M0F38, pp: Pp::Bare, w: false, op: 0xd5 }), dst, Src::MemConv(mem, conv), k)
    }

    pub open spec fn vcvtfxpntps2dq_adj(
        dst: Zmm,
        src: Src,
        mode: Round,
        adj: ExpAdj,
        k: K,
    ) -> InsnV {
        let imm = (adj.spec_num() << 4) | mode.spec_num();
        InsnV::load_imm(
            "vcvtfxpntps2dq"@,
            (Opcode { map: Map0::M0F3A, pp: Pp::P66, w: false, op: 0xcb }),
            dst,
            src,
            k,
            imm,
            "0x"@ + text::hex2(imm),
        )
    }

    pub open spec fn vprefetch(mem: Mem, cache: Cache) -> InsnV {
        InsnV {
            bytes: encode::mvex_bytes(
                (Opcode { map: Map0::M0F, pp: Pp::Bare, w: false, op: 0x18 }),
                if cache == Cache::L1 { 1 } else { 2 },
                0,
                Src::Mem(mem),
                0,
                None,
            ),
            text: (if cache == Cache::L1 { "vprefetch0 "@ } else { "vprefetch1 "@ })
                + mem.spec_text(),
        }
    }
}

/// `vmovaps zmm1 {k}, Uf32(mt)`: a float32 load through a conversion
/// (MVEX.512.0F.W0 28 with SSS = `conv`). `Conv::Plain` is the plain
/// 64-byte aligned load.
pub fn vmovaps_load_conv(dst: Zmm, mem: Mem, conv: Conv, k: K) -> (i: Insn)
    requires
        dst.ok(),
        k.ok(),
    ensures
        i@ == InsnV::vmovaps_load_conv(dst, mem, conv, k),
{
    encode::load("vmovaps", Opcode { map: Map0::M0F, pp: Pp::Bare, w: false, op: 0x28 }, dst, Src::MemConv(mem, conv), k)
}

/// `vmovaps zmm1, Uf32(mt){float16}`: sixteen halves (32 bytes, 32-byte
/// aligned) as floats.
pub fn vmovaps_load_f16(dst: Zmm, mem: Mem) -> (i: Insn)
    requires
        dst.ok(),
    ensures
        i@ == InsnV::vmovaps_load_f16(dst, mem),
{
    vmovaps_load_conv(dst, mem, Conv::F16, K(0))
}

/// `vmovdqa32 zmm1 {k}, Ui32(mt)`: an int32 load through a conversion
/// (MVEX.512.66.0F.W0 6F).
pub fn vmovdqa32_load_conv(dst: Zmm, mem: Mem, conv: Conv, k: K) -> (i: Insn)
    requires
        dst.ok(),
        k.ok(),
    ensures
        i@ == InsnV::vmovdqa32_load_conv(dst, mem, conv, k),
{
    encode::load("vmovdqa32", Opcode { map: Map0::M0F, pp: Pp::P66, w: false, op: 0x6f }, dst, Src::MemConv(mem, conv), k)
}

/// The unaligned load pair of int32 lanes through a conversion
/// (`vloadunpackld` / `vloadunpackhd`, MVEX.512.0F38.W0 D0 / D4, with SSS =
/// `conv`): sixteen bytes or words from any address become sixteen
/// integers. The float32 twin is `vloadunpacklps_conv` (D1 / D5). The high
/// half's address is 64 above the low one's, as for the plain pair.
/// Broadcasts are not valid on an unpack.
pub fn vloadunpackld_conv(dst: Zmm, mem: Mem, conv: Conv, k: K) -> (i: Insn)
    requires
        dst.ok(),
        k.ok(),
        !conv.broadcasts(),
    ensures
        i@ == InsnV::vloadunpackld_conv(dst, mem, conv, k),
{
    encode::load("vloadunpackld", Opcode { map: Map0::M0F38, pp: Pp::Bare, w: false, op: 0xd0 }, dst, Src::MemConv(mem, conv), k)
}

/// The high half of the converting load pair; see `vloadunpackld_conv`.
pub fn vloadunpackhd_conv(dst: Zmm, mem: Mem, conv: Conv, k: K) -> (i: Insn)
    requires
        dst.ok(),
        k.ok(),
        !conv.broadcasts(),
    ensures
        i@ == InsnV::vloadunpackhd_conv(dst, mem, conv, k),
{
    encode::load("vloadunpackhd", Opcode { map: Map0::M0F38, pp: Pp::Bare, w: false, op: 0xd4 }, dst, Src::MemConv(mem, conv), k)
}

/// `vcvtfxpntdq2ps zmm1 {k}, zmm2/mt, imm8`: int32 to float32
/// (MVEX.512.0F3A.W0 CB /r ib, no legacy prefix; the 66-prefixed CB is the
/// float to int direction). The immediate is 0: round to nearest, no
/// exponent adjustment. The same encoding the rewriter uses for
/// `vcvtdq2ps`.
pub fn vcvtfxpntdq2ps(dst: Zmm, src: Src, k: K) -> (i: Insn)
    requires
        dst.ok(),
        src.ok(),
        k.ok(),
    ensures
        i@ == InsnV::vcvtfxpntdq2ps(dst, src, k),
{
    encode::load_imm("vcvtfxpntdq2ps", Opcode { map: Map0::M0F3A, pp: Pp::Bare, w: false, op: 0xcb }, dst, src, k, 0, "0")
}

/// `vrndfxpntps zmm1 {k}, zmm2/mt, imm8`: round each float32 to an
/// integer value in the given mode (MVEX.512.66.0F3A.W0 52 /r ib; the
/// high bits of the immediate, an exponent adjustment, stay 0). The
/// rewriter's translation of `vrndscaleps`.
pub fn vrndfxpntps(dst: Zmm, src: Src, mode: Round, k: K) -> (i: Insn)
    requires
        dst.ok(),
        src.ok(),
        k.ok(),
    ensures
        i@ == InsnV::vrndfxpntps(dst, src, mode, k),
{
    encode::load_imm("vrndfxpntps", Opcode { map: Map0::M0F3A, pp: Pp::P66, w: false, op: 0x52 }, dst, src, k, mode.num(), mode.text())
}

/// `vfnmadd231ps zmm1 {k}, zmm2, zmm3/mt`: zmm1 = -(zmm2 * src) + zmm1 (BC).
pub fn vfnmadd231ps(dst: Zmm, src1: Zmm, src2: Src, k: K) -> (i: Insn)
    requires
        dst.ok(),
        src1.ok(),
        src2.ok(),
        k.ok(),
    ensures
        i@ == InsnV::vfnmadd231ps(dst, src1, src2, k),
{
    encode::three("vfnmadd231ps", Opcode { map: Map0::M0F38, pp: Pp::P66, w: false, op: 0xbc }, dst, src1, src2, k)
}

/// `vfmsub213ps zmm1 {k}, zmm2, zmm3/mt`: zmm1 = zmm2 * zmm1 - src (AA).
pub fn vfmsub213ps(dst: Zmm, src1: Zmm, src2: Src, k: K) -> (i: Insn)
    requires
        dst.ok(),
        src1.ok(),
        src2.ok(),
        k.ok(),
    ensures
        i@ == InsnV::vfmsub213ps(dst, src1, src2, k),
{
    encode::three("vfmsub213ps", Opcode { map: Map0::M0F38, pp: Pp::P66, w: false, op: 0xaa }, dst, src1, src2, k)
}

/// `vfmsub231ps zmm1 {k}, zmm2, zmm3/mt`: zmm1 = zmm2 * src - zmm1 (BA).
pub fn vfmsub231ps(dst: Zmm, src1: Zmm, src2: Src, k: K) -> (i: Insn)
    requires
        dst.ok(),
        src1.ok(),
        src2.ok(),
        k.ok(),
    ensures
        i@ == InsnV::vfmsub231ps(dst, src1, src2, k),
{
    encode::three("vfmsub231ps", Opcode { map: Map0::M0F38, pp: Pp::P66, w: false, op: 0xba }, dst, src1, src2, k)
}

/// `vpermd zmm1 {k}, zmm2, zmm3/mt`: each lane of the result is the lane of
/// `src2` that the low four bits of the corresponding lane of `zmm2`
/// select (MVEX.NDS.512.66.0F38.W0 36 /r, the opcode AVX-512 kept). A
/// sixteen-entry table in `src2` and indices in `zmm2` make it a lookup.
pub fn vpermd(dst: Zmm, idx: Zmm, src2: Src, k: K) -> (i: Insn)
    requires
        dst.ok(),
        idx.ok(),
        src2.ok(),
        k.ok(),
    ensures
        i@ == InsnV::vpermd(dst, idx, src2, k),
{
    encode::three("vpermd", Opcode { map: Map0::M0F38, pp: Pp::P66, w: false, op: 0x36 }, dst, idx, src2, k)
}

/// `vcvtfxpntps2dq zmm1 {k}, zmm2/mt, imm8`: float32 to int32 in the
/// rounding mode of the immediate (MVEX.512.66.0F3A.W0 CB /r ib, the
/// 66-prefixed twin of `vcvtfxpntdq2ps`; the rewriter's `vcvtps2dq`).
pub fn vcvtfxpntps2dq(dst: Zmm, src: Src, mode: Round, k: K) -> (i: Insn)
    requires
        dst.ok(),
        src.ok(),
        k.ok(),
    ensures
        i@ == InsnV::vcvtfxpntps2dq(dst, src, mode, k),
{
    encode::load_imm("vcvtfxpntps2dq", Opcode { map: Map0::M0F3A, pp: Pp::P66, w: false, op: 0xcb }, dst, src, k, mode.num(), mode.text())
}

/// `vmovaps mt {k}, zmm {conv}`: store sixteen floats through a
/// down-conversion, under a write-mask (MVEX.512.0F.W0 29 /r with SSS the
/// `Df32` conversion; ISA reference 327364-001, page 379, and table 2.12).
/// `Conv::F16` writes sixteen halves (32 bytes, 32-byte aligned) rounded in
/// MXCSR.RC; a lane whose mask bit is clear is not written at all, so two
/// threads may each store their own lanes of one vector. The broadcast
/// values of SSS are reserved for stores.
pub fn vmovaps_store_conv(mem: Mem, src: Zmm, conv: Conv, k: K) -> (i: Insn)
    requires
        src.ok(),
        k.ok(),
        !conv.broadcasts(),
    ensures
        i@ == InsnV::vmovaps_store_conv(mem, src, conv, k),
{
    encode::store("vmovaps", Opcode { map: Map0::M0F, pp: Pp::Bare, w: false, op: 0x29 }, mem, conv, src, k)
}

/// The unaligned load pair of float32 lanes through a conversion
/// (`vloadunpacklps` / `vloadunpackhps`, MVEX.512.0F38.W0 D1 / D5, the
/// Uf32 conversions): sixteen bytes from any address become sixteen
/// floats. The same opcodes with a 66 prefix are the pack-stores.
pub fn vloadunpacklps_conv(dst: Zmm, mem: Mem, conv: Conv, k: K) -> (i: Insn)
    requires
        dst.ok(),
        k.ok(),
    ensures
        i@ == InsnV::vloadunpacklps_conv(dst, mem, conv, k),
{
    encode::load("vloadunpacklps", Opcode { map: Map0::M0F38, pp: Pp::Bare, w: false, op: 0xd1 }, dst, Src::MemConv(mem, conv), k)
}

/// The high half of the converting float pair; see `vloadunpacklps_conv`.
pub fn vloadunpackhps_conv(dst: Zmm, mem: Mem, conv: Conv, k: K) -> (i: Insn)
    requires
        dst.ok(),
        k.ok(),
    ensures
        i@ == InsnV::vloadunpackhps_conv(dst, mem, conv, k),
{
    encode::load("vloadunpackhps", Opcode { map: Map0::M0F38, pp: Pp::Bare, w: false, op: 0xd5 }, dst, Src::MemConv(mem, conv), k)
}

/// `vcvtfxpntps2dq` with an exponent adjustment: float32 to a fixed-point
/// int32 with `adj`'s fraction bits, rounded in `mode`, saturating (out of
/// range gives INT_MAX or INT_MIN and NaN gives 0, page 169). With
/// `ExpAdj::Q8_24` and then `vexp223ps` this is Intel's exp2.
pub fn vcvtfxpntps2dq_adj(dst: Zmm, src: Src, mode: Round, adj: ExpAdj, k: K) -> (i: Insn)
    requires
        dst.ok(),
        src.ok(),
        k.ok(),
    ensures
        i@ == InsnV::vcvtfxpntps2dq_adj(dst, src, mode, adj, k),
{
    let imm: u8 = (adj.num() << 4) | mode.num();
    let mut shown = String::from_str("0x");
    text::push_hex2(&mut shown, imm);
    encode::load_imm(
        "vcvtfxpntps2dq",
        Opcode { map: Map0::M0F3A, pp: Pp::P66, w: false, op: 0xcb },
        dst,
        src,
        k,
        imm,
        shown.as_str(),
    )
}

/// `vprefetch0 mt` / `vprefetch1 mt`: fetch the cache line at `mt`. No
/// destination, no mask; the opcode extension is in ModRM.reg.
pub fn vprefetch(mem: Mem, cache: Cache) -> (i: Insn)
    ensures
        i@ == InsnV::vprefetch(mem, cache),
{
    let ext: u8 = if cache == Cache::L1 { 1 } else { 2 };
    let mut t = String::from_str(if cache == Cache::L1 { "vprefetch0 " } else { "vprefetch1 " });
    mem.push(&mut t);
    let o = Opcode { map: Map0::M0F, pp: Pp::Bare, w: false, op: 0x18 };
    Insn { bytes: encode::mvex(o, ext, 0, Src::Mem(mem), 0, None), text: t }
}

} // verus!
