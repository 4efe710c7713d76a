//! What holds of every encoding: its fields can be read back from its bytes,
//! a conversion is the SSS field and nothing else, and the two encoders of
//! this crate agree.
use crate::bits;
use crate::mvex::encode;
use crate::mvex::encode::{InsnV, Opcode};
use crate::mvex::reg::{Conv, Mem, Src, Zmm, K};
use crate::xlate::code::{MemOp, Mvex, Rm};
use crate::xlate::ev;
use vstd::prelude::*;

verus! {

proof fn lemma_p0(reg: u8, x: u8, b: u8, map: u8, p0: u8)
    requires
        reg < 32,
        x < 2,
        b < 2,
        1 <= map <= 3,
        p0 == (!((reg >> 3) & 1) & 1) << 7 | (!x & 1) << 6 | (!b & 1) << 5 | (!((reg >> 4) & 1) & 1)
            << 4 | map,
    ensures
        p0 & 3 == map,
        (!p0 >> 7) & 1 == (reg >> 3) & 1,
        (!p0 >> 4) & 1 == (reg >> 4) & 1,
        (!p0 >> 5) & 1 == b,
        (!p0 >> 6) & 1 == x,
{
    assert(p0 & 3 == map && (!p0 >> 7) & 1 == (reg >> 3) & 1 && (!p0 >> 4) & 1 == (reg >> 4) & 1 && (
    !p0 >> 5) & 1 == b && (!p0 >> 6) & 1 == x) by (bit_vector)
        requires
            reg < 32,
            x < 2,
            b < 2,
            map <= 3,
            p0 == (!((reg >> 3) & 1) & 1) << 7 | (!x & 1) << 6 | (!b & 1) << 5 | (!((reg >> 4) & 1)
                & 1) << 4 | map,
    ;
}

proof fn lemma_p1_p2(w: u8, vvvv: u8, pp: u8, aaa: u8, sss: u8, p1: u8, p2: u8)
    requires
        w < 2,
        vvvv < 32,
        pp < 4,
        aaa < 8,
        sss < 8,
        p1 == w << 7 | (!vvvv & 0xf) << 3 | pp,
        p2 == (!(vvvv >> 4) & 1) << 3 | aaa | sss << 4,
    ensures
        p1 & 3 == pp,
        p1 & 4 == 0,
        p1 >> 7 == w,
        ((!p1 >> 3) & 0xf) | ((!p2 >> 3) & 1) << 4 == vvvv,
        p2 & 7 == aaa,
        (p2 >> 4) & 7 == sss,
        p2 >> 7 == 0,
{
    assert(p1 & 3 == pp && p1 & 4 == 0 && p1 >> 7 == w && ((!p1 >> 3) & 0xf) | ((!p2 >> 3) & 1) << 4
        == vvvv && p2 & 7 == aaa && (p2 >> 4) & 7 == sss && p2 >> 7 == 0) by (bit_vector)
        requires
            w < 2,
            vvvv < 32,
            pp < 4,
            aaa < 8,
            sss < 8,
            p1 == w << 7 | (!vvvv & 0xf) << 3 | pp,
            p2 == (!(vvvv >> 4) & 1) << 3 | aaa | sss << 4,
    ;
}

proof fn lemma_modrm(reg: u8, rm: u8, top: u8, modrm: u8)
    requires
        reg < 32,
        rm < 32,
        top == 0xc0 || top == 0x80,
        modrm == top | (reg & 7) << 3 | (rm & 7),
    ensures
        (modrm >> 3) & 7 == reg & 7,
        modrm & 7 == rm & 7,
        modrm >> 6 == top >> 6,
        (reg & 7) | ((reg >> 3) & 1) << 3 | ((reg >> 4) & 1) << 4 == reg,
        (rm & 7) | ((rm >> 3) & 1) << 3 | ((rm >> 4) & 1) << 4 == rm,
        0x80u8 >> 6 == 2,
        0xc0u8 >> 6 == 3,
{
    assert((modrm >> 3) & 7 == reg & 7 && modrm & 7 == rm & 7 && modrm >> 6 == top >> 6 && (reg & 7)
        | ((reg >> 3) & 1) << 3 | ((reg >> 4) & 1) << 4 == reg && (rm & 7) | ((rm >> 3) & 1) << 3 | ((
    rm >> 4) & 1) << 4 == rm && 0x80u8 >> 6 == 2 && 0xc0u8 >> 6 == 3) by (bit_vector)
        requires
            reg < 32,
            rm < 32,
            top == 0xc0 || top == 0x80,
            modrm == top | (reg & 7) << 3 | (rm & 7),
    ;
}

proof fn lemma_small_fields(n: u8)
    ensures
        (n >> 4) & 1 < 2,
        (n >> 3) & 1 < 2,
{
    assert((n >> 4) & 1 < 2 && (n >> 3) & 1 < 2) by (bit_vector);
}

/// Every field that an instruction was encoded with can be read back from
/// its bytes: the opcode, the three registers, the mask and the conversion;
/// and bit 2 of P1 is clear, which tells it from an AVX-512 instruction.
pub proof fn law_fields_read_back(
    o: Opcode,
    reg: u8,
    vvvv: u8,
    z: Zmm,
    aaa: u8,
    imm: Option<u8>,
)
    requires
        reg < 32,
        vvvv < 32,
        z.ok(),
        aaa < 8,
    ensures
        ({
            let b = encode::mvex_bytes(o, reg, vvvv, Src::Reg(z), aaa, imm);
            let f = ev::parsed(b);
            &&& b[0] == 0x62
            &&& b[2] & 4 == 0
            &&& f.map == o.map.spec_num() && f.pp == o.pp.spec_num() && f.op == o.op
            &&& f.w == (if o.w { 1u8 } else { 0u8 })
            &&& f.reg == reg && f.vvvv == vvvv && f.rm == z.0 && f.is_reg_rm
            &&& f.aaa == aaa
            &&& (b[3] >> 4) & 7 == 0
        }),
{
    let b = encode::mvex_bytes(o, reg, vvvv, Src::Reg(z), aaa, imm);
    let w: u8 = if o.w {
        1
    } else {
        0
    };
    lemma_small_fields(z.0);
    lemma_p0(reg, (z.0 >> 4) & 1, (z.0 >> 3) & 1, o.map.spec_num(), b[1]);
    lemma_p1_p2(w, vvvv, o.pp.spec_num(), aaa, 0, b[2], b[3]);
    lemma_modrm(reg, z.0, 0xc0, b[5]);
}

/// The same with a memory operand: the registers, the mask and the
/// conversion, the base and the displacement.
pub proof fn law_memory_read_back(
    o: Opcode,
    reg: u8,
    vvvv: u8,
    m: Mem,
    conv: Conv,
    aaa: u8,
    imm: Option<u8>,
)
    requires
        reg < 32,
        vvvv < 32,
        aaa < 8,
    ensures
        ({
            let b = encode::mvex_bytes(o, reg, vvvv, Src::MemConv(m, conv), aaa, imm);
            let f = ev::parsed(b);
            &&& f.map == o.map.spec_num() && f.pp == o.pp.spec_num() && f.op == o.op
            &&& f.reg == reg && f.vvvv == vvvv && f.aaa == aaa && !f.is_reg_rm
            &&& (b[3] >> 4) & 7 == conv.spec_sss()
            &&& f.rm & 0xf == m.spec_base().spec_num()
            &&& bits::word32(b, 6) == m.spec_disp() as u32
        }),
{
    let b = encode::mvex_bytes(o, reg, vvvv, Src::MemConv(m, conv), aaa, imm);
    let w: u8 = if o.w {
        1
    } else {
        0
    };
    let base = m.spec_base().spec_num();
    lemma_small_fields(base);
    lemma_p0(reg, 0, (base >> 3) & 1, o.map.spec_num(), b[1]);
    lemma_p1_p2(w, vvvv, o.pp.spec_num(), aaa, conv.spec_sss(), b[2], b[3]);
    lemma_modrm(reg, base, 0x80, b[5]);
    assert(((base & 7) | ((base >> 3) & 1) << 3 | 0u8 << 4) & 0xf == base) by (bit_vector)
        requires
            base < 16,
    ;
    bits::lemma_word32(m.spec_disp() as u32);
    let l = bits::le32(m.spec_disp() as u32);
    assert(b[6] == l[0] && b[7] == l[1] && b[8] == l[2] && b[9] == l[3]);
}

proof fn lemma_or(v: u8, aaa: u8, sss: u8)
    requires
        aaa < 8,
        sss < 8,
    ensures
        (!(v >> 4) & 1) << 3 | aaa | sss << 4 == ((!(v >> 4) & 1) << 3 | 0 | 0u8 << 4) | aaa | sss
            << 4,
{
    assert((!(v >> 4) & 1) << 3 | aaa | sss << 4 == ((!(v >> 4) & 1) << 3 | 0 | 0u8 << 4) | aaa
        | sss << 4) by (bit_vector);
}

/// A conversion and a mask are two fields of one byte: an instruction that
/// has them is the plain one with those fields set.
pub proof fn law_conversion_is_a_field(
    o: Opcode,
    reg: u8,
    vvvv: u8,
    m: Mem,
    conv: Conv,
    aaa: u8,
    imm: Option<u8>,
)
    requires
        aaa < 8,
    ensures
        ({
            let plain = encode::mvex_bytes(o, reg, vvvv, Src::Mem(m), 0, imm);
            encode::mvex_bytes(o, reg, vvvv, Src::MemConv(m, conv), aaa, imm) == plain.update(
                3,
                plain[3] | aaa | conv.spec_sss() << 4,
            )
        }),
{
    let plain = encode::mvex_bytes(o, reg, vvvv, Src::Mem(m), 0, imm);
    lemma_or(vvvv, aaa, conv.spec_sss());
    assert(encode::mvex_bytes(o, reg, vvvv, Src::MemConv(m, conv), aaa, imm) =~= plain.update(
        3,
        plain[3] | aaa | conv.spec_sss() << 4,
    ));
}

/// A converting store is the plain store with its conversion and its mask in
/// place; without either it is the plain store.
pub proof fn law_converting_store(m: Mem, src: Zmm, conv: Conv, k: K)
    requires
        k.ok(),
    ensures
        ({
            let plain = InsnV::vmovaps_store(m, src).bytes;
            &&& InsnV::vmovaps_store_conv(m, src, conv, k).bytes == plain.update(
                3,
                plain[3] | k.0 | conv.spec_sss() << 4,
            )
            &&& InsnV::vmovaps_store_conv(m, src, Conv::Plain, K(0)).bytes == plain
        }),
{
    let o = encode::Opcode {
        map: encode::Map0::M0F,
        pp: encode::Pp::Bare,
        w: false,
        op: 0x29,
    };
    let s = encode::mvex_bytes(o, src.0, 0, Src::Mem(m), 0, None);
    law_conversion_is_a_field(o, src.0, 0, m, conv, k.0, None);
    law_conversion_is_a_field(o, src.0, 0, m, Conv::Plain, 0, None);
    let p2 = s[3];
    assert(p2 | 0u8 | 0u8 << 4 == p2) by (bit_vector);
    assert(s.update(3, p2) =~= s);
}

/// A load through a conversion is the plain load with its conversion and its
/// mask in place.
pub proof fn law_converting_load(dst: Zmm, m: Mem, conv: Conv, k: K)
    requires
        k.ok(),
    ensures
        ({
            let plain = InsnV::vmovaps_load(dst, m).bytes;
            InsnV::vmovaps_load_conv(dst, m, conv, k).bytes == plain.update(
                3,
                plain[3] | k.0 | conv.spec_sss() << 4,
            )
        }),
{
    let o = encode::Opcode {
        map: encode::Map0::M0F,
        pp: encode::Pp::Bare,
        w: false,
        op: 0x28,
    };
    law_conversion_is_a_field(o, dst.0, 0, m, conv, k.0, None);
}

/// The two no-read stores differ in the eviction hint alone.
pub proof fn law_no_read_stores(m: Mem, src: Zmm)
    ensures
        ({
            let a = InsnV::vmovnraps_store(m, src).bytes;
            let b = InsnV::vmovnrngoaps_store(m, src).bytes;
            &&& a.len() == b.len()
            &&& forall|i: int| 0 <= i < a.len() && i != 3 ==> a[i] == b[i]
            &&& b[3] == a[3] | 0x80
        }),
{
}

/// The instruction that the rewriter emits for these operands.
pub open spec fn rewriter_form(
    o: Opcode,
    reg: u8,
    vvvv: u8,
    rm: Src,
    aaa: u8,
    imm: Option<u8>,
) -> Mvex {
    Mvex {
        map: o.map.spec_num(),
        pp: o.pp.spec_num(),
        w: if o.w {
            1
        } else {
            0
        },
        op: o.op,
        reg,
        vvvv,
        rm: match rm {
            Src::Reg(z) => Rm::Reg(z.0),
            Src::Mem(m) => Rm::Mem(plain_operand(m)),
            Src::MemConv(m, _) => Rm::Mem(plain_operand(m)),
        },
        k: aaa,
        sss: rm.spec_sss(),
        imm,
    }
}

/// `[base + disp]` as the rewriter holds it.
pub open spec fn plain_operand(m: Mem) -> MemOp {
    MemOp {
        base: Some(m.spec_base().spec_num()),
        index: None,
        scale: 0,
        disp: m.spec_disp() as i64,
        rip: None,
    }
}

proof fn lemma_inverted(n: u8)
    ensures
        !((n >> 3) & 1) & 1 == !(n >> 3) & 1,
        !((n >> 4) & 1) & 1 == !(n >> 4) & 1,
        !0u8 & 1 == 1,
{
    assert(!((n >> 3) & 1) & 1 == !(n >> 3) & 1 && !((n >> 4) & 1) & 1 == !(n >> 4) & 1 && !0u8 & 1
        == 1) by (bit_vector);
}

proof fn lemma_p2_forms(v: u8, aaa: u8, sss: u8)
    requires
        aaa < 8,
    ensures
        (!(v >> 4) & 1) << 3 | aaa | sss << 4 == (sss << 4) | ((!(v >> 4) & 1) << 3) | (aaa & 7),
{
    assert((!(v >> 4) & 1) << 3 | aaa | sss << 4 == (sss << 4) | ((!(v >> 4) & 1) << 3) | (aaa & 7))
        by (bit_vector)
        requires
            aaa < 8,
    ;
}

/// The encoder of single instructions and the rewriter agree on every
/// instruction both can express.
pub proof fn law_encoders_agree(
    o: Opcode,
    reg: u8,
    vvvv: u8,
    rm: Src,
    aaa: u8,
    imm: Option<u8>,
    scratch: i32,
)
    requires
        reg < 32,
        vvvv < 32,
        aaa < 8,
        rm.ok(),
        rm matches Src::Mem(m) ==> m.spec_base().spec_num() & 7 != 4,
        rm matches Src::MemConv(m, _) ==> m.spec_base().spec_num() & 7 != 4,
    ensures
        rewriter_form(o, reg, vvvv, rm, aaa, imm).bytes(scratch) == encode::mvex_bytes(
            o,
            reg,
            vvvv,
            rm,
            aaa,
            imm,
        ),
{
    lemma_inverted(reg);
    lemma_p2_forms(vvvv, aaa, rm.spec_sss());
    match rm {
        Src::Reg(z) => {
            lemma_inverted(z.0);
        },
        Src::Mem(m) => {
            lemma_inverted(m.spec_base().spec_num());
        },
        Src::MemConv(m, _) => {
            lemma_inverted(m.spec_base().spec_num());
        },
    }
    assert(rewriter_form(o, reg, vvvv, rm, aaa, imm).bytes(scratch) =~= encode::mvex_bytes(
        o,
        reg,
        vvvv,
        rm,
        aaa,
        imm,
    ));
}

} // verus!
