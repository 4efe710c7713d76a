//! The MVEX and VEX encodings, and the text that goes with them.
//!
//! ```text
//! byte 0  62H
//! P0      R X B R'  0 0 m m      register extension bits, inverted (R, R' extend ModRM.reg; X, B extend r/m); mm = opcode map
//! P1      W v v v v 0 p p        vvvv = first source, inverted; bit 2 is 0 (EVEX has 1); pp = prefix
//! P2      E S S S V' a a a       E = eviction hint, SSS = swizzle/conversion, V' = vvvv bit 4 inverted, aaa = mask
//! ```
use crate::bits;
use crate::mvex::reg::{Conv, Mem, Src, Zmm, K};
use crate::text;
use vstd::prelude::*;

verus! {

/// Opcode maps, the `mm` field of P0.
#[derive(Clone, Copy, Debug, PartialEq, Eq, Structural)]
pub enum Map0 {
    M0F,
    M0F38,
    M0F3A,
}

impl Map0 {
    pub open spec fn spec_num(self) -> u8 {
        match self {
            Map0::M0F => 1,
            Map0::M0F38 => 2,
            Map0::M0F3A => 3,
        }
    }

    /// The value of the field.
    #[verifier::when_used_as_spec(spec_num)]
    pub fn num(self) -> (n: u8)
        ensures
            n == self.spec_num(),
    {
        match self {
            Map0::M0F => 1,
            Map0::M0F38 => 2,
            Map0::M0F3A => 3,
        }
    }
}

/// Legacy prefix compaction, the `pp` field of P1.
#[derive(Clone, Copy, Debug, PartialEq, Eq, Structural)]
pub enum Pp {
    /// No prefix.
    Bare,
    P66,
    /// The F2 prefix, which selects the no-read-hint stores.
    Pf2,
}

impl Pp {
    pub open spec fn spec_num(self) -> u8 {
        match self {
            Pp::Bare => 0,
            Pp::P66 => 1,
            Pp::Pf2 => 3,
        }
    }

    /// The value of the field.
    #[verifier::when_used_as_spec(spec_num)]
    pub fn num(self) -> (n: u8)
        ensures
            n == self.spec_num(),
    {
        match self {
            Pp::Bare => 0,
            Pp::P66 => 1,
            Pp::Pf2 => 3,
        }
    }
}

/// The opcode of an instruction: its map, prefix, W bit and byte.
#[derive(Clone, Copy, Debug, PartialEq, Eq, Structural)]
pub struct Opcode {
    pub map: Map0,
    pub pp: Pp,
    pub w: bool,
    pub op: u8,
}

/// One encoded instruction with its Intel-syntax text for the comment.
#[derive(Clone, Debug, PartialEq, Eq)]
pub struct Insn {
    pub bytes: Vec<u8>,
    pub text: String,
}

/// What an [`Insn`] is: its bytes and its text.
pub struct InsnV {
    pub bytes: Seq<u8>,
    pub text: Seq<char>,
}

impl View for Insn {
    type V = InsnV;

    open spec fn view(&self) -> InsnV {
        InsnV { bytes: self.bytes@, text: self.text@ }
    }
}

/// The bits of the r/m operand beyond the low three: (X, B).
pub open spec fn rm_ext(rm: Src) -> (u8, u8) {
    match rm {
        Src::Reg(z) => ((z.0 >> 4) & 1, (z.0 >> 3) & 1),
        Src::Mem(m) => (0, (m.spec_base().spec_num() >> 3) & 1),
        Src::MemConv(m, _) => (0, (m.spec_base().spec_num() >> 3) & 1),
    }
}

/// ModRM and displacement.
pub open spec fn rm_bytes(reg: u8, rm: Src) -> Seq<u8> {
    let r3 = (reg & 7) << 3;
    match rm {
        Src::Reg(z) => seq![0xc0u8 | r3 | (z.0 & 7)],
        Src::Mem(m) => seq![0x80u8 | r3 | (m.spec_base().spec_num() & 7)] + bits::le32(
            m.spec_disp() as u32,
        ),
        Src::MemConv(m, _) => seq![0x80u8 | r3 | (m.spec_base().spec_num() & 7)] + bits::le32(
            m.spec_disp() as u32,
        ),
    }
}

/// One MVEX instruction: `reg` the ModRM.reg operand (with its R and R'
/// extensions), `vvvv` the first source, `rm` the r/m operand with its
/// conversion, `aaa` the write mask.
pub open spec fn mvex_bytes(
    o: Opcode,
    reg: u8,
    vvvv: u8,
    rm: Src,
    aaa: u8,
    imm: Option<u8>,
) -> Seq<u8> {
    let x = rm_ext(rm).0;
    let b = rm_ext(rm).1;
    let w: u8 = if o.w { 1 } else { 0 };
    seq![
        0x62,
        (!((reg >> 3) & 1) & 1) << 7 | (!x & 1) << 6 | (!b & 1) << 5 | (!((reg >> 4) & 1) & 1) << 4
            | o.map.spec_num(),
        w << 7 | (!vvvv & 0xf) << 3 | o.pp.spec_num(),
        (!(vvvv >> 4) & 1) << 3 | aaa | rm.spec_sss() << 4,
        o.op,
    ] + rm_bytes(reg, rm) + (match imm {
        Some(i) => seq![i],
        None => seq![],
    })
}

/// Set the SSS field of an assembled instruction's P2 byte.
pub fn with_sss(bytes: Vec<u8>, sss: u8) -> (out: Vec<u8>)
    requires
        bytes@.len() > 3,
        sss < 8,
    ensures
        out@ == bytes@.update(3, bytes@[3] | sss << 4),
{
    let mut out = bytes;
    let p2: u8 = out[3];
    out.set(3, p2 | sss << 4);
    out
}

/// Assemble one MVEX instruction.
pub fn mvex(o: Opcode, reg: u8, vvvv: u8, rm: Src, aaa: u8, imm: Option<u8>) -> (out: Vec<u8>)
    requires
        reg < 32,
        vvvv < 32,
        aaa < 8,
        rm.ok(),
    ensures
        out@ == mvex_bytes(o, reg, vvvv, rm, aaa, imm),
{
    let (x, b): (u8, u8) = match rm {
        Src::Reg(z) => ((z.0 >> 4) & 1, (z.0 >> 3) & 1),
        Src::Mem(m) => (0, (m.base().num() >> 3) & 1),
        Src::MemConv(m, _) => (0, (m.base().num() >> 3) & 1),
    };
    let w: u8 = if o.w {
        1
    } else {
        0
    };
    let mut out: Vec<u8> = Vec::new();
    out.push(0x62);
    out.push(
        (!((reg >> 3) & 1) & 1) << 7 | (!x & 1) << 6 | (!b & 1) << 5 | (!((reg >> 4) & 1) & 1) << 4
            | o.map.num(),
    );
    out.push(w << 7 | (!vvvv & 0xf) << 3 | o.pp.num());
    out.push((!(vvvv >> 4) & 1) << 3 | aaa);
    out.push(o.op);
    let out = with_sss(out, rm.sss());
    push_rm(out, reg, rm, imm)
}

/// Appends ModRM, displacement and immediate.
fn push_rm(head: Vec<u8>, reg: u8, rm: Src, imm: Option<u8>) -> (out: Vec<u8>)
    ensures
        out@ == head@ + rm_bytes(reg, rm) + (match imm {
            Some(i) => seq![i],
            None => seq![],
        }),
{
    let mut out = head;
    let r3: u8 = (reg & 7) << 3;
    match rm {
        Src::Reg(z) => out.push(0xc0 | r3 | (z.0 & 7)),
        Src::Mem(m) => {
            out.push(0x80 | r3 | (m.base().num() & 7));
            bits::push_le32(&mut out, m.disp() as u32);
        },
        Src::MemConv(m, _) => {
            out.push(0x80 | r3 | (m.base().num() & 7));
            bits::push_le32(&mut out, m.disp() as u32);
        },
    }
    if let Some(i) = imm {
        out.push(i);
    }
    assert(out@ =~= head@ + rm_bytes(reg, rm) + (match imm {
        Some(i) => seq![i],
        None => seq![],
    }));
    out
}

/// A two-byte VEX instruction of the mask register family (VEX.128.0F.W0,
/// no legacy prefix).
pub open spec fn vex_k_bytes(opcode: u8, reg: u8, rm: u8) -> Seq<u8> {
    seq![0xc5, 0xf8, opcode, 0xc0u8 | reg << 3 | rm]
}

/// Assemble a two-byte VEX instruction of the mask register family; only
/// registers 0 to 7 have one, without a REX extension.
pub fn vex_k(opcode: u8, reg: u8, rm: u8) -> (out: Vec<u8>)
    requires
        reg < 8,
        rm < 8,
    ensures
        out@ == vex_k_bytes(opcode, reg, rm),
{
    let mut out: Vec<u8> = Vec::new();
    out.push(0xc5);
    out.push(0xf8);
    out.push(opcode);
    out.push(0xc0 | reg << 3 | rm);
    assert(out@ =~= vex_k_bytes(opcode, reg, rm));
    out
}

/// Bytes as `0x62, 0xf1`, with `sep` between them.
pub open spec fn byte_list(bytes: Seq<u8>, sep: Seq<char>) -> Seq<char>
    decreases bytes.len(),
{
    if bytes.len() == 0 {
        seq![]
    } else if bytes.len() == 1 {
        "0x"@ + text::hex2(bytes[0])
    } else {
        byte_list(bytes.drop_last(), sep) + sep + "0x"@ + text::hex2(bytes.last())
    }
}

fn push_byte_list(s: &mut String, bytes: &Vec<u8>, sep: &str)
    ensures
        final(s)@ == old(s)@ + byte_list(bytes@, sep@),
{
    let mut i: usize = 0;
    assert(bytes@.take(0) =~= seq![]);
    assert(s@ =~= old(s)@ + byte_list(bytes@.take(0), sep@));
    while i < bytes.len()
        invariant
            i <= bytes@.len(),
            s@ == old(s)@ + byte_list(bytes@.take(i as int), sep@),
        decreases bytes@.len() - i,
    {
        let ghost before = s@;
        if i > 0 {
            s.append(sep);
        }
        s.append("0x");
        text::push_hex2(s, bytes[i]);
        proof {
            let t = bytes@.take(i + 1);
            assert(t.drop_last() =~= bytes@.take(i as int));
            assert(t.last() == bytes@[i as int]);
            assert(s@ =~= old(s)@ + byte_list(t, sep@));
        }
        i = i + 1;
    }
    assert(bytes@.take(i as int) =~= bytes@);
}

impl InsnV {
    /// The instruction as a `.byte` directive with the mnemonic as comment.
    pub open spec fn gas(self) -> Seq<char> {
        "\t.byte "@ + byte_list(self.bytes, ", "@) + "\t# "@ + self.text
    }

    /// The instruction as a C string literal for inline assembly.
    pub open spec fn c_string(self) -> Seq<char> {
        "\".byte "@ + byte_list(self.bytes, ","@) + "\\n\\t\" /* "@ + self.text + " */"@
    }

    /// A two-operand instruction: `name dst {k}, src`.
    pub open spec fn load(name: Seq<char>, o: Opcode, dst: Zmm, src: Src, k: K) -> InsnV {
        InsnV {
            bytes: mvex_bytes(o, dst.0, 0, src, k.0, None),
            text: name + " "@ + dst.spec_text() + k.mask_text() + ", "@ + src.spec_text(),
        }
    }

    /// A two-operand instruction with an immediate: `name dst {k}, src, imm`.
    pub open spec fn load_imm(
        name: Seq<char>,
        o: Opcode,
        dst: Zmm,
        src: Src,
        k: K,
        imm: u8,
        shown: Seq<char>,
    ) -> InsnV {
        InsnV {
            bytes: mvex_bytes(o, dst.0, 0, src, k.0, Some(imm)),
            text: name + " "@ + dst.spec_text() + k.mask_text() + ", "@ + src.spec_text() + ", "@
                + shown,
        }
    }

    /// A store, through a conversion: `name mem {k}{conv}, src`.
    pub open spec fn store(
        name: Seq<char>,
        o: Opcode,
        mem: Mem,
        conv: Conv,
        src: Zmm,
        k: K,
    ) -> InsnV {
        InsnV {
            bytes: mvex_bytes(o, src.0, 0, Src::MemConv(mem, conv), k.0, None),
            text: name + " "@ + mem.spec_text() + k.mask_text() + conv.spec_text() + ", "@
                + src.spec_text(),
        }
    }

    /// A three-operand instruction: `name dst {k}, src1, src2`.
    pub open spec fn three(
        name: Seq<char>,
        o: Opcode,
        dst: Zmm,
        src1: Zmm,
        src2: Src,
        k: K,
    ) -> InsnV {
        InsnV {
            bytes: mvex_bytes(o, dst.0, src1.0, src2, k.0, None),
            text: name + " "@ + dst.spec_text() + k.mask_text() + ", "@ + src1.spec_text() + ", "@
                + src2.spec_text(),
        }
    }

    /// A shift by immediate, with the opcode extension in ModRM.reg and the
    /// destination in vvvv: `name dst {k}, src, count`.
    pub open spec fn shift(name: Seq<char>, ext: u8, dst: Zmm, src: Src, count: u8, k: K) -> InsnV {
        InsnV {
            bytes: mvex_bytes(
                (Opcode { map: Map0::M0F, pp: Pp::P66, w: false, op: 0x72 }),
                ext,
                dst.0,
                src,
                k.0,
                Some(count),
            ),
            text: name + " "@ + dst.spec_text() + k.mask_text() + ", "@ + src.spec_text() + ", "@
                + text::decimal(count as nat),
        }
    }

    /// A compare into a mask: `name dst {k}, src1, src2, pred`.
    pub open spec fn into_mask(
        name: Seq<char>,
        o: Opcode,
        dst: K,
        src1: Zmm,
        src2: Src,
        pred: u8,
        k: K,
    ) -> InsnV {
        InsnV {
            bytes: mvex_bytes(o, dst.0, src1.0, src2, k.0, Some(pred)),
            text: name + " "@ + dst.spec_text() + k.mask_text() + ", "@ + src1.spec_text() + ", "@
                + src2.spec_text() + ", "@ + text::decimal(pred as nat),
        }
    }
}

impl Insn {
    /// The instruction as a `.byte` directive with the mnemonic as comment.
    pub fn gas(&self) -> (s: String)
        ensures
            s@ == self@.gas(),
    {
        let mut s = String::from_str("\t.byte ");
        push_byte_list(&mut s, &self.bytes, ", ");
        s.append("\t# ");
        s.append(self.text.as_str());
        s
    }

    /// The instruction as a C string literal for inline assembly.
    pub fn c_string(&self) -> (s: String)
        ensures
            s@ == self@.c_string(),
    {
        let mut s = String::from_str("\".byte ");
        push_byte_list(&mut s, &self.bytes, ",");
        s.append("\\n\\t\" /* ");
        s.append(self.text.as_str());
        s.append(" */");
        s
    }
}

/// `name dst {k}, src`.
pub fn load(name: &str, o: Opcode, dst: Zmm, src: Src, k: K) -> (i: Insn)
    requires
        dst.ok(),
        src.ok(),
        k.ok(),
    ensures
        i@ == InsnV::load(name@, o, dst, src, k),
{
    let mut t = String::from_str(name);
    t.append(" ");
    dst.push(&mut t);
    k.push_mask(&mut t);
    t.append(", ");
    src.push(&mut t);
    Insn { bytes: mvex(o, dst.0, 0, src, k.0, None), text: t }
}

/// `name dst {k}, src, imm`.
pub fn load_imm(name: &str, o: Opcode, dst: Zmm, src: Src, k: K, imm: u8, shown: &str) -> (i: Insn)
    requires
        dst.ok(),
        src.ok(),
        k.ok(),
    ensures
        i@ == InsnV::load_imm(name@, o, dst, src, k, imm, shown@),
{
    let mut t = String::from_str(name);
    t.append(" ");
    dst.push(&mut t);
    k.push_mask(&mut t);
    t.append(", ");
    src.push(&mut t);
    t.append(", ");
    t.append(shown);
    Insn { bytes: mvex(o, dst.0, 0, src, k.0, Some(imm)), text: t }
}

/// `name mem {k}{conv}, src`.
pub fn store(name: &str, o: Opcode, mem: Mem, conv: Conv, src: Zmm, k: K) -> (i: Insn)
    requires
        src.ok(),
        k.ok(),
    ensures
        i@ == InsnV::store(name@, o, mem, conv, src, k),
{
    let mut t = String::from_str(name);
    t.append(" ");
    mem.push(&mut t);
    k.push_mask(&mut t);
    t.append(conv.text());
    t.append(", ");
    src.push(&mut t);
    Insn { bytes: mvex(o, src.0, 0, Src::MemConv(mem, conv), k.0, None), text: t }
}

/// `name dst {k}, src1, src2`.
pub fn three(name: &str, o: Opcode, dst: Zmm, src1: Zmm, src2: Src, k: K) -> (i: Insn)
    requires
        dst.ok(),
        src1.ok(),
        src2.ok(),
        k.ok(),
    ensures
        i@ == InsnV::three(name@, o, dst, src1, src2, k),
{
    let mut t = String::from_str(name);
    t.append(" ");
    dst.push(&mut t);
    k.push_mask(&mut t);
    t.append(", ");
    src1.push(&mut t);
    t.append(", ");
    src2.push(&mut t);
    Insn { bytes: mvex(o, dst.0, src1.0, src2, k.0, None), text: t }
}

/// The immediate-count shifts are the one `NDD` family here: the
/// destination sits in `vvvv`, the source in r/m, and ModRM.reg carries the
/// opcode extension of opcode 72 (`/6` left, `/2` logical right, `/4`
/// arithmetic right), so one encoder covers all three. A count above 31
/// gives zero for the logical forms (ISA reference, VPSLLD).
pub fn shift_imm(name: &str, ext: u8, dst: Zmm, src: Src, count: u8, k: K) -> (i: Insn)
    requires
        ext < 8,
        dst.ok(),
        src.ok(),
        k.ok(),
    ensures
        i@ == InsnV::shift(name@, ext, dst, src, count, k),
{
    let mut t = String::from_str(name);
    t.append(" ");
    dst.push(&mut t);
    k.push_mask(&mut t);
    t.append(", ");
    src.push(&mut t);
    t.append(", ");
    text::push_decimal(&mut t, count as u64);
    let o = Opcode { map: Map0::M0F, pp: Pp::P66, w: false, op: 0x72 };
    Insn { bytes: mvex(o, ext, dst.0, src, k.0, Some(count)), text: t }
}

/// `name dst {k}, src1, src2, pred`.
pub fn into_mask(name: &str, o: Opcode, dst: K, src1: Zmm, src2: Src, pred: u8, k: K) -> (i: Insn)
    requires
        dst.ok(),
        src1.ok(),
        src2.ok(),
        k.ok(),
    ensures
        i@ == InsnV::into_mask(name@, o, dst, src1, src2, pred, k),
{
    let mut t = String::from_str(name);
    t.append(" ");
    dst.push(&mut t);
    k.push_mask(&mut t);
    t.append(", ");
    src1.push(&mut t);
    t.append(", ");
    src2.push(&mut t);
    t.append(", ");
    text::push_decimal(&mut t, pred as u64);
    Insn { bytes: mvex(o, dst.0, src1.0, src2, k.0, Some(pred)), text: t }
}

} // verus!
