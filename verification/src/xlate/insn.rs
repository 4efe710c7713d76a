//! One decoded instruction, as plain values.
//!
//! The decoder is iced-x86. What it says of an instruction is read once,
//! right after decoding, into a [`Decoded`]: the codes it gives a
//! mnemonic, a register, an operand kind, an encoding or a memory size
//! are the numbers of its own enumerations, named here and in
//! [`crate::xlate::mnemonic`].
use vstd::prelude::*;

verus! {

/// An operand held in a register (`iced_x86::OpKind::Register`).
pub const KIND_REGISTER: u8 = 0;
/// An 8-bit immediate (`iced_x86::OpKind::Immediate8`).
pub const KIND_IMM8: u8 = 6;
/// A memory operand (`iced_x86::OpKind::Memory`).
pub const KIND_MEMORY: u8 = 24;

/// `iced_x86::EncodingKind::VEX`.
pub const ENCODING_VEX: u8 = 1;
/// `iced_x86::EncodingKind::EVEX`.
pub const ENCODING_EVEX: u8 = 2;

/// `iced_x86::RoundingControl::None`.
pub const ROUNDING_NONE: u8 = 0;

/// `iced_x86::MemorySize::UInt64`.
pub const SIZE_UINT64: u8 = 5;
/// `iced_x86::MemorySize::Int64`.
pub const SIZE_INT64: u8 = 12;

// Register codes (`iced_x86::Register`); each class is numbered in
// encoding order from its first register.
pub const REG_NONE: u8 = 0;
pub const REG_EAX: u8 = 37;
pub const REG_R15D: u8 = 52;
pub const REG_RAX: u8 = 53;
pub const REG_RSP: u8 = 57;
pub const REG_R12: u8 = 65;
pub const REG_R15: u8 = 68;
pub const REG_XMM0: u8 = 77;
pub const REG_XMM31: u8 = 108;
pub const REG_YMM0: u8 = 109;
pub const REG_YMM31: u8 = 140;
pub const REG_ZMM0: u8 = 141;
pub const REG_ZMM31: u8 = 172;
pub const REG_K0: u8 = 173;
pub const REG_K7: u8 = 180;

/// The number of a vector register of any width.
pub open spec fn vreg_of(r: u8) -> Option<u8> {
    if REG_ZMM0 <= r <= REG_ZMM31 {
        Some((r - REG_ZMM0) as u8)
    } else if REG_YMM0 <= r <= REG_YMM31 {
        Some((r - REG_YMM0) as u8)
    } else if REG_XMM0 <= r <= REG_XMM31 {
        Some((r - REG_XMM0) as u8)
    } else {
        None
    }
}

/// zmm number of a zmm, ymm or xmm register operand.
pub fn vreg(r: u8) -> (n: Option<u8>)
    ensures
        n == vreg_of(r),
        n matches Some(z) ==> z < 32,
{
    if r >= REG_ZMM0 && r <= REG_ZMM31 {
        Some(r - REG_ZMM0)
    } else if r >= REG_YMM0 && r <= REG_YMM31 {
        Some(r - REG_YMM0)
    } else if r >= REG_XMM0 && r <= REG_XMM31 {
        Some(r - REG_XMM0)
    } else {
        None
    }
}

/// The number of a mask register.
pub open spec fn kreg_of(r: u8) -> Option<u8> {
    if REG_K0 <= r <= REG_K7 {
        Some((r - REG_K0) as u8)
    } else {
        None
    }
}

/// Number of a mask register operand.
pub fn kreg(r: u8) -> (n: Option<u8>)
    ensures
        n == kreg_of(r),
        n matches Some(k) ==> k < 8,
{
    if r >= REG_K0 && r <= REG_K7 {
        Some(r - REG_K0)
    } else {
        None
    }
}

/// The number of a general register, and whether it is the 64-bit one.
pub open spec fn gpr_of(r: u8) -> Option<(u8, bool)> {
    if REG_RAX <= r <= REG_R15 {
        Some(((r - REG_RAX) as u8, true))
    } else if REG_EAX <= r <= REG_R15D {
        Some(((r - REG_EAX) as u8, false))
    } else {
        None
    }
}

/// Number of a 64-bit or 32-bit general register, in encoding order.
pub fn gpr(r: u8) -> (n: Option<(u8, bool)>)
    ensures
        n == gpr_of(r),
        n matches Some(g) ==> g.0 < 16,
{
    if r >= REG_RAX && r <= REG_R15 {
        Some((r - REG_RAX, true))
    } else if r >= REG_EAX && r <= REG_R15D {
        Some((r - REG_EAX, false))
    } else {
        None
    }
}

/// What the decoder says of an instruction as a whole.
#[derive(Clone, Copy, Debug, PartialEq, Eq)]
pub struct Head {
    pub mnemonic: u16,
    pub encoding: u8,
    pub len: usize,
    pub op_count: u32,
    /// Register code of the write mask, `REG_NONE` when there is none.
    pub mask: u8,
    pub imm8: u8,
    pub zeroing: bool,
    pub rounding: u8,
    pub broadcast: bool,
}

/// The kind and the register code of each of the five operand places.
#[derive(Clone, Copy, Debug, PartialEq, Eq)]
pub struct Operands {
    pub kinds: [u8; 5],
    pub regs: [u8; 5],
}

/// What the decoder says of the memory operand.
#[derive(Clone, Copy, Debug, PartialEq, Eq)]
pub struct MemPart {
    pub base: u8,
    pub index: u8,
    pub scale: u32,
    pub disp: u64,
    pub segment: u8,
    /// Whether the operand is relative to the instruction pointer.
    pub rip: bool,
    /// Its absolute address, when it is.
    pub rip_address: u64,
    pub size: u8,
}

/// One decoded instruction.
#[derive(Clone, Debug)]
pub struct Decoded {
    pub ip: u64,
    pub head: Head,
    pub operands: Operands,
    pub mem: MemPart,
    /// The instruction in Intel syntax.
    pub text: String,
}

/// The whole-instruction part of what iced-x86 decodes at the start of
/// `code`, taken to stand at `ip`, in 64-bit mode.
pub uninterp spec fn iced_head(code: Seq<u8>, ip: u64) -> Head;

/// The kinds of the five operand places of what iced-x86 decodes at the
/// start of `code`.
pub uninterp spec fn iced_kinds(code: Seq<u8>, ip: u64) -> Seq<u8>;

/// The register codes of those five places.
pub uninterp spec fn iced_regs(code: Seq<u8>, ip: u64) -> Seq<u8>;

/// The memory-operand part of what iced-x86 decodes at the start of `code`.
pub uninterp spec fn iced_mem(code: Seq<u8>, ip: u64) -> MemPart;

/// The Intel-syntax text of what iced-x86 decodes at the start of `code`.
pub uninterp spec fn iced_text(code: Seq<u8>, ip: u64) -> Seq<char>;

/// `iced_x86::Decoder::decode` in 64-bit mode with no decoder options,
/// then the accessors of `iced_x86::Instruction` for the mnemonic, the
/// encoding, the length, the operand count, the write mask, the first
/// 8-bit immediate, zeroing, embedded rounding and embedded broadcast.
/// Claimed: each is a function of the bytes and the address alone.
#[verifier::external_body]
fn decode_head(code: &[u8], ip: u64) -> (h: Head)
    ensures
        h == iced_head(code@, ip),
{
    let i = iced_x86::Decoder::with_ip(64, code, ip, iced_x86::DecoderOptions::NONE).decode();
    Head {
        mnemonic: i.mnemonic() as u16,
        encoding: i.encoding() as u8,
        len: i.len(),
        op_count: i.op_count(),
        mask: i.op_mask() as u8,
        imm8: i.immediate8(),
        zeroing: i.zeroing_masking(),
        rounding: i.rounding_control() as u8,
        broadcast: i.is_broadcast(),
    }
}

/// `iced_x86::Decoder::decode` as above, then
/// `iced_x86::Instruction::op_kind` of the five operand places. Claimed:
/// they are a function of the bytes and the address alone.
#[verifier::external_body]
fn decode_kinds(code: &[u8], ip: u64) -> (k: [u8; 5])
    ensures
        k@ == iced_kinds(code@, ip),
{
    let i = iced_x86::Decoder::with_ip(64, code, ip, iced_x86::DecoderOptions::NONE).decode();
    [i.op_kind(0) as u8, i.op_kind(1) as u8, i.op_kind(2) as u8, i.op_kind(3) as u8, i.op_kind(4) as u8]
}

/// `iced_x86::Decoder::decode` as above, then
/// `iced_x86::Instruction::op_register` of the five operand places.
/// Claimed: they are a function of the bytes and the address alone.
#[verifier::external_body]
fn decode_regs(code: &[u8], ip: u64) -> (r: [u8; 5])
    ensures
        r@ == iced_regs(code@, ip),
{
    let i = iced_x86::Decoder::with_ip(64, code, ip, iced_x86::DecoderOptions::NONE).decode();
    [
        i.op_register(0) as u8,
        i.op_register(1) as u8,
        i.op_register(2) as u8,
        i.op_register(3) as u8,
        i.op_register(4) as u8,
    ]
}

/// `iced_x86::Decoder::decode` as above, then the memory-operand
/// accessors of `iced_x86::Instruction`. Claimed: each is a function of
/// the bytes and the address alone.
#[verifier::external_body]
fn decode_mem(code: &[u8], ip: u64) -> (m: MemPart)
    ensures
        m == iced_mem(code@, ip),
{
    let i = iced_x86::Decoder::with_ip(64, code, ip, iced_x86::DecoderOptions::NONE).decode();
    MemPart {
        base: i.memory_base() as u8,
        index: i.memory_index() as u8,
        scale: i.memory_index_scale(),
        disp: i.memory_displacement64(),
        segment: i.segment_prefix() as u8,
        rip: i.is_ip_rel_memory_operand(),
        rip_address: i.ip_rel_memory_address(),
        size: i.memory_size() as u8,
    }
}

/// `iced_x86::Decoder::decode` as above, then `iced_x86::Instruction`'s
/// `Display`. Claimed: the text is a function of the bytes and the
/// address alone.
#[verifier::external_body]
fn decode_text(code: &[u8], ip: u64) -> (t: String)
    ensures
        t@ == iced_text(code@, ip),
{
    let i = iced_x86::Decoder::with_ip(64, code, ip, iced_x86::DecoderOptions::NONE).decode();
    format!("{i}")
}

/// Decodes the instruction at the start of `code`, taken to stand at `ip`.
pub fn decode(code: &[u8], ip: u64) -> (d: Decoded)
    ensures
        d.is_decoding_of(code@, ip),
{
    Decoded {
        ip,
        head: decode_head(code, ip),
        operands: Operands { kinds: decode_kinds(code, ip), regs: decode_regs(code, ip) },
        mem: decode_mem(code, ip),
        text: decode_text(code, ip),
    }
}

impl Decoded {
    /// Whether this is what the decoder makes of `code` at `ip`.
    pub open spec fn is_decoding_of(&self, code: Seq<u8>, ip: u64) -> bool {
        &&& self.ip == ip
        &&& self.head == iced_head(code, ip)
        &&& self.operands.kinds@ == iced_kinds(code, ip)
        &&& self.operands.regs@ == iced_regs(code, ip)
        &&& self.mem == iced_mem(code, ip)
        &&& self.text@ == iced_text(code, ip)
    }

    /// The kind of operand `i`.
    pub open spec fn kind(&self, i: int) -> u8 {
        self.operands.kinds@[i]
    }

    /// The register code of operand `i`.
    pub open spec fn reg(&self, i: int) -> u8 {
        self.operands.regs@[i]
    }

    /// The kind of operand `i`.
    pub fn op_kind(&self, i: usize) -> (k: u8)
        requires
            i < 5,
        ensures
            k == self.kind(i as int),
    {
        self.operands.kinds[i]
    }

    /// The register code of operand `i`.
    pub fn op_register(&self, i: usize) -> (r: u8)
        requires
            i < 5,
        ensures
            r == self.reg(i as int),
    {
        self.operands.regs[i]
    }

    /// Whether the instruction has a memory operand.
    pub open spec fn has_mem(&self) -> bool {
        exists|i: int| 0 <= i < self.head.op_count && self.kind(i) == KIND_MEMORY
    }

    /// Whether the last operand is an 8-bit immediate.
    pub open spec fn ends_in_imm8(&self) -> bool {
        self.kind(self.head.op_count - 1) == KIND_IMM8
    }
}

} // verus!
