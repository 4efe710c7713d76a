//! Registers and operands of the card's vector instructions.
use crate::text;
use vstd::prelude::*;

verus! {

/// A 512-bit vector register, `zmm0` to `zmm31`.
#[derive(Clone, Copy, Debug, PartialEq, Eq, Structural)]
pub struct Zmm(pub u8);

/// A vector mask register, `k0` to `k7`.
#[derive(Clone, Copy, Debug, PartialEq, Eq, Structural)]
pub struct K(pub u8);

/// A general purpose register, numbered as in the ModRM encoding.
#[derive(Clone, Copy, Debug, PartialEq, Eq, Structural)]
pub enum Gpr {
    Rax,
    Rcx,
    Rdx,
    Rbx,
    Rsp,
    Rbp,
    Rsi,
    Rdi,
    R8,
    R9,
    R10,
    R11,
    R12,
    R13,
    R14,
    R15,
}

impl Gpr {
    /// The number of the register in the ModRM encoding.
    pub open spec fn spec_num(self) -> u8 {
        match self {
            Gpr::Rax => 0,
            Gpr::Rcx => 1,
            Gpr::Rdx => 2,
            Gpr::Rbx => 3,
            Gpr::Rsp => 4,
            Gpr::Rbp => 5,
            Gpr::Rsi => 6,
            Gpr::Rdi => 7,
            Gpr::R8 => 8,
            Gpr::R9 => 9,
            Gpr::R10 => 10,
            Gpr::R11 => 11,
            Gpr::R12 => 12,
            Gpr::R13 => 13,
            Gpr::R14 => 14,
            Gpr::R15 => 15,
        }
    }

    /// The number of the register in the ModRM encoding.
    #[verifier::when_used_as_spec(spec_num)]
    pub fn num(self) -> (n: u8)
        ensures
            n == self.spec_num(),
            n < 16,
    {
        match self {
            Gpr::Rax => 0,
            Gpr::Rcx => 1,
            Gpr::Rdx => 2,
            Gpr::Rbx => 3,
            Gpr::Rsp => 4,
            Gpr::Rbp => 5,
            Gpr::Rsi => 6,
            Gpr::Rdi => 7,
            Gpr::R8 => 8,
            Gpr::R9 => 9,
            Gpr::R10 => 10,
            Gpr::R11 => 11,
            Gpr::R12 => 12,
            Gpr::R13 => 13,
            Gpr::R14 => 14,
            Gpr::R15 => 15,
        }
    }

    /// The name of the 64-bit register.
    pub open spec fn spec_name(self) -> Seq<char> {
        match self {
            Gpr::Rax => "rax"@,
            Gpr::Rcx => "rcx"@,
            Gpr::Rdx => "rdx"@,
            Gpr::Rbx => "rbx"@,
            Gpr::Rsp => "rsp"@,
            Gpr::Rbp => "rbp"@,
            Gpr::Rsi => "rsi"@,
            Gpr::Rdi => "rdi"@,
            Gpr::R8 => "r8"@,
            Gpr::R9 => "r9"@,
            Gpr::R10 => "r10"@,
            Gpr::R11 => "r11"@,
            Gpr::R12 => "r12"@,
            Gpr::R13 => "r13"@,
            Gpr::R14 => "r14"@,
            Gpr::R15 => "r15"@,
        }
    }

    /// The name of the 64-bit register.
    pub fn name(self) -> (s: &'static str)
        ensures
            s@ == self.spec_name(),
    {
        match self {
            Gpr::Rax => "rax",
            Gpr::Rcx => "rcx",
            Gpr::Rdx => "rdx",
            Gpr::Rbx => "rbx",
            Gpr::Rsp => "rsp",
            Gpr::Rbp => "rbp",
            Gpr::Rsi => "rsi",
            Gpr::Rdi => "rdi",
            Gpr::R8 => "r8",
            Gpr::R9 => "r9",
            Gpr::R10 => "r10",
            Gpr::R11 => "r11",
            Gpr::R12 => "r12",
            Gpr::R13 => "r13",
            Gpr::R14 => "r14",
            Gpr::R15 => "r15",
        }
    }

    /// The name of the low 32 bits of the register; r8 to r15 are named as
    /// the register with the same low three bits.
    pub open spec fn spec_name32(self) -> Seq<char> {
        match self {
            Gpr::Rax | Gpr::R8 => "eax"@,
            Gpr::Rcx | Gpr::R9 => "ecx"@,
            Gpr::Rdx | Gpr::R10 => "edx"@,
            Gpr::Rbx | Gpr::R11 => "ebx"@,
            Gpr::Rsp | Gpr::R12 => "esp"@,
            Gpr::Rbp | Gpr::R13 => "ebp"@,
            Gpr::Rsi | Gpr::R14 => "esi"@,
            Gpr::Rdi | Gpr::R15 => "edi"@,
        }
    }

    /// The name of the low 32 bits of the register.
    pub fn name32(self) -> (s: &'static str)
        ensures
            s@ == self.spec_name32(),
    {
        match self {
            Gpr::Rax | Gpr::R8 => "eax",
            Gpr::Rcx | Gpr::R9 => "ecx",
            Gpr::Rdx | Gpr::R10 => "edx",
            Gpr::Rbx | Gpr::R11 => "ebx",
            Gpr::Rsp | Gpr::R12 => "esp",
            Gpr::Rbp | Gpr::R13 => "ebp",
            Gpr::Rsi | Gpr::R14 => "esi",
            Gpr::Rdi | Gpr::R15 => "edi",
        }
    }
}

impl Zmm {
    /// Whether the register exists.
    pub open spec fn ok(self) -> bool {
        self.0 < 32
    }

    pub open spec fn spec_text(self) -> Seq<char> {
        "zmm"@ + text::decimal(self.0 as nat)
    }

    /// Appends the name of the register.
    pub fn push(self, s: &mut String)
        ensures
            final(s)@ == old(s)@ + self.spec_text(),
    {
        s.append("zmm");
        text::push_decimal(s, self.0 as u64);
        assert(s@ =~= old(s)@ + self.spec_text());
    }

    /// The name of the register.
    pub fn text(self) -> (s: String)
        ensures
            s@ == self.spec_text(),
    {
        let mut s = String::new();
        self.push(&mut s);
        assert(s@ =~= self.spec_text());
        s
    }
}

impl K {
    /// Whether the register exists.
    pub open spec fn ok(self) -> bool {
        self.0 < 8
    }

    pub open spec fn spec_text(self) -> Seq<char> {
        "k"@ + text::decimal(self.0 as nat)
    }

    /// Appends the name of the register.
    pub fn push(self, s: &mut String)
        ensures
            final(s)@ == old(s)@ + self.spec_text(),
    {
        s.append("k");
        text::push_decimal(s, self.0 as u64);
        assert(s@ =~= old(s)@ + self.spec_text());
    }

    /// The name of the register.
    pub fn text(self) -> (s: String)
        ensures
            s@ == self.spec_text(),
    {
        let mut s = String::new();
        self.push(&mut s);
        assert(s@ =~= self.spec_text());
        s
    }

    /// The register as a write mask: nothing for `k0`, which means none.
    pub open spec fn mask_text(self) -> Seq<char> {
        if self.0 == 0 {
            seq![]
        } else {
            " {"@ + self.spec_text() + "}"@
        }
    }

    /// Appends the register as a write mask.
    pub fn push_mask(self, s: &mut String)
        ensures
            final(s)@ == old(s)@ + self.mask_text(),
    {
        if self.0 != 0 {
            s.append(" {");
            self.push(s);
            s.append("}");
        }
        assert(s@ =~= old(s)@ + self.mask_text());
    }
}

/// A memory operand `[base + disp]`, always encoded with a 32-bit
/// displacement (mod = 10), so no disp8*N scaling is involved. The base may
/// not be `rsp` or `r12`, which would need a SIB byte.
#[derive(Clone, Copy, Debug, PartialEq, Eq)]
pub struct Mem {
    base: Gpr,
    disp: i32,
}

impl Mem {
    /// The base is one that needs no SIB byte.
    #[verifier::type_invariant]
    spec fn plain_base(self) -> bool {
        self.base != Gpr::Rsp && self.base != Gpr::R12
    }

    /// The operand `[base + disp]`.
    pub closed spec fn at(base: Gpr, disp: i32) -> Mem {
        Mem { base, disp }
    }

    /// The base register.
    pub closed spec fn spec_base(self) -> Gpr {
        self.base
    }

    /// The displacement.
    pub closed spec fn spec_disp(self) -> i32 {
        self.disp
    }

    /// An operand is its base and its displacement.
    pub broadcast proof fn lemma_at(base: Gpr, disp: i32)
        ensures
            (#[trigger] Mem::at(base, disp)).spec_base() == base,
            Mem::at(base, disp).spec_disp() == disp,
    {
    }

    /// `[base + disp]`, where `base` is not `rsp` or `r12` (see the type).
    pub fn new(base: Gpr, disp: i32) -> (m: Mem)
        requires
            base != Gpr::Rsp && base != Gpr::R12,
        ensures
            m == Mem::at(base, disp),
            m.spec_base() == base,
            m.spec_disp() == disp,
    {
        Mem { base, disp }
    }

    /// The base register, which is never `rsp` or `r12`.
    pub fn base(self) -> (g: Gpr)
        ensures
            g == self.spec_base(),
            g != Gpr::Rsp && g != Gpr::R12,
    {
        proof {
            use_type_invariant(self);
        }
        self.base
    }

    /// The displacement.
    pub fn disp(self) -> (d: i32)
        ensures
            d == self.spec_disp(),
    {
        self.disp
    }

    /// The same base with the displacement moved by `delta`, or `None` if
    /// that overflows. Used for the high half of an unaligned access pair,
    /// which addresses the cache line 64 bytes above the low half.
    pub fn offset(self, delta: i32) -> (m: Option<Mem>)
        ensures
            match m {
                Some(n) => n == Mem::at(self.spec_base(), (self.spec_disp() + delta) as i32)
                    && i32::MIN <= self.spec_disp() + delta <= i32::MAX,
                None => !(i32::MIN <= self.spec_disp() + delta <= i32::MAX),
            },
    {
        proof {
            use_type_invariant(self);
        }
        match self.disp.checked_add(delta) {
            Some(disp) => Some(Mem { base: self.base, disp }),
            None => None,
        }
    }

    pub open spec fn spec_text(self) -> Seq<char> {
        let d = self.spec_disp() as int;
        if d < 0 {
            "["@ + self.spec_base().spec_name() + "-"@ + text::decimal((-d) as nat) + "]"@
        } else {
            "["@ + self.spec_base().spec_name() + "+"@ + text::decimal(d as nat) + "]"@
        }
    }

    /// Appends the operand in Intel syntax.
    pub fn push(self, s: &mut String)
        ensures
            final(s)@ == old(s)@ + self.spec_text(),
    {
        s.append("[");
        s.append(self.base.name());
        if self.disp < 0 {
            s.append("-");
            text::push_decimal(s, (-(self.disp as i64)) as u64);
        } else {
            s.append("+");
            text::push_decimal(s, self.disp as u64);
        }
        s.append("]");
        assert(s@ =~= old(s)@ + self.spec_text());
    }

    /// The operand in Intel syntax.
    pub fn text(self) -> (s: String)
        ensures
            s@ == self.spec_text(),
    {
        let mut s = String::new();
        self.push(&mut s);
        assert(s@ =~= self.spec_text());
        s
    }
}

/// The SSS field of P2 for a memory operand (ISA reference tables 2.9 and
/// 2.10). `Bcast1` reads one element and fills the sixteen lanes with it;
/// `Bcast4` reads four and repeats them; the byte and word forms read
/// sixteen elements of that width and widen each to its 32-bit lane, to a
/// float for the float32 instructions and to an integer for the int32
/// ones; `F16` is the float16 to float32 conversion the float32 loads
/// offer. A converted operand is aligned to its own size in memory (16
/// bytes for sixteen bytes, 4 for a broadcast scalar), not to 64.
#[derive(Clone, Copy, Debug, PartialEq, Eq, Structural)]
pub enum Conv {
    /// No conversion.
    Plain,
    Bcast1,
    Bcast4,
    F16,
    U8,
    S8,
    U16,
    S16,
}

impl Conv {
    pub open spec fn spec_sss(self) -> u8 {
        match self {
            Conv::Plain => 0,
            Conv::Bcast1 => 1,
            Conv::Bcast4 => 2,
            Conv::F16 => 3,
            Conv::U8 => 4,
            Conv::S8 => 5,
            Conv::U16 => 6,
            Conv::S16 => 7,
        }
    }

    /// The value of the SSS field.
    #[verifier::when_used_as_spec(spec_sss)]
    pub fn sss(self) -> (n: u8)
        ensures
            n == self.spec_sss(),
            n < 8,
    {
        match self {
            Conv::Plain => 0,
            Conv::Bcast1 => 1,
            Conv::Bcast4 => 2,
            Conv::F16 => 3,
            Conv::U8 => 4,
            Conv::S8 => 5,
            Conv::U16 => 6,
            Conv::S16 => 7,
        }
    }

    pub open spec fn spec_text(self) -> Seq<char> {
        match self {
            Conv::Plain => seq![],
            Conv::Bcast1 => "{1to16}"@,
            Conv::Bcast4 => "{4to16}"@,
            Conv::F16 => "{float16}"@,
            Conv::U8 => "{uint8}"@,
            Conv::S8 => "{sint8}"@,
            Conv::U16 => "{uint16}"@,
            Conv::S16 => "{sint16}"@,
        }
    }

    /// The conversion in Intel syntax.
    pub fn text(self) -> (s: &'static str)
        ensures
            s@ == self.spec_text(),
    {
        proof {
            reveal_strlit("");
            assert(""@ =~= seq![]);
        }
        match self {
            Conv::Plain => "",
            Conv::Bcast1 => "{1to16}",
            Conv::Bcast4 => "{4to16}",
            Conv::F16 => "{float16}",
            Conv::U8 => "{uint8}",
            Conv::S8 => "{sint8}",
            Conv::U16 => "{uint16}",
            Conv::S16 => "{sint16}",
        }
    }

    /// Whether this is one of the two broadcasts.
    pub open spec fn broadcasts(self) -> bool {
        self == Conv::Bcast1 || self == Conv::Bcast4
    }
}

/// The second source of a three-operand instruction: a register, memory, or
/// memory read through a conversion.
#[derive(Clone, Copy, Debug, PartialEq, Eq)]
pub enum Src {
    Reg(Zmm),
    Mem(Mem),
    MemConv(Mem, Conv),
}

impl Src {
    /// Whether the register, if it is one, exists.
    pub open spec fn ok(self) -> bool {
        self matches Src::Reg(z) ==> z.ok()
    }

    pub open spec fn spec_sss(self) -> u8 {
        match self {
            Src::MemConv(_, c) => c.spec_sss(),
            _ => 0,
        }
    }

    /// The SSS field the source asks for.
    pub fn sss(self) -> (n: u8)
        ensures
            n == self.spec_sss(),
            n < 8,
    {
        match self {
            Src::MemConv(_, c) => c.sss(),
            _ => 0,
        }
    }

    pub open spec fn spec_text(self) -> Seq<char> {
        match self {
            Src::Reg(z) => z.spec_text(),
            Src::Mem(m) => m.spec_text(),
            Src::MemConv(m, c) => m.spec_text() + c.spec_text(),
        }
    }

    /// Appends the source in Intel syntax.
    pub fn push(self, s: &mut String)
        ensures
            final(s)@ == old(s)@ + self.spec_text(),
    {
        match self {
            Src::Reg(z) => z.push(s),
            Src::Mem(m) => m.push(s),
            Src::MemConv(m, c) => {
                m.push(s);
                s.append(c.text());
            },
        }
        assert(s@ =~= old(s)@ + self.spec_text());
    }
}

} // verus!
