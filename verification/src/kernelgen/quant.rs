//! The quantized-weight kernels: one 256-weight superblock of a row in
//! llama.cpp's Q4_K, Q5_K, Q6_K, Q8_0 or IQ4_XS format against 1, 4 or 8
//! rows of float32 activations, accumulated into sixteen partial sums per
//! activation row. The card has no byte arithmetic, so the bytes load as
//! floats (the `{uint8}` and `{sint8}` up-conversions), nibbles and
//! two-bit fields are split with a multiply by a power of two, a floor
//! and a fused subtract, and each sixteen-weight vector is finished as
//! `w = q * scale - minuend` with the two values broadcast from a table
//! that the kernel fills per superblock.
//!
//! Calling convention (System V), the same for every kernel:
//!
//! ```text
//!   rdi  the superblock (the block's first byte; Q8_0: eight consecutive blocks)
//!   rsi  the first activation row, 256 floats, 64-byte aligned
//!   rdx  an array of T pointers, one per activation row (entry 0 is rsi
//!        again); each row is 256 floats, 64-byte aligned
//!   rcx  the superblock's table: 16 scales, 16 minuends (`TAB_SC`, `TAB_MN`)
//!   r8   the accumulators, T x 16 floats, 64-byte aligned, read and written
//!   r9   the constants, 64-byte aligned, the same for every call (`C_*`)
//!   [rsp+8]  the byte distance to the superblock this thread processes next
//!            (the prefetch stride: the row stride when rows are swept
//!            superblock by superblock, the block size along one row)
//! ```
//!
//! Every stage is emitted for a whole batch of registers before the next
//! stage, so dependent instructions sit a batch apart.
use crate::kernelgen::listing::{Asm, Listing};
use crate::mvex::conv;
use crate::mvex::conv::{Cache, Round};
use crate::mvex::encode::InsnV;
use crate::mvex::plain;
use crate::mvex::reg::{Conv, Gpr, Mem, Src, Zmm, K};
use vstd::prelude::*;

verus! {

/// The superblock's table: scales and minuends per sixteen-weight vector
/// (32 floats per superblock).
pub const TAB_SC: i32 = 0;

pub const TAB_MN: i32 = 64;

pub const TAB_BYTES: i32 = 128;

/// The constants: 16, 4, 2, then `2^-j` for j in 1..=8 at `C_POW2NEG + 4 * (j - 1)`,
/// and the sixteen-entry value table of IQ4_XS at 64.
pub const C_SIXTEEN: i32 = 0;

pub const C_FOUR: i32 = 4;

pub const C_TWO: i32 = 8;

pub const C_POW2NEG: i32 = 12;

pub const C_LUT: i32 = 64;

/// Index vectors for `vpermd` and shift vectors, 64-byte aligned (the
/// preparation of the scales), then scalar constants.
/// `[0,0,1,1,..,7,7]`
pub const C_IDX_EXPAND: i32 = 128;

/// `[8,8,9,9,..,15,15]`
pub const C_IDX_EXPAND_HI: i32 = 192;

/// `[0,1,2,3, 8,9,10,11, 4,5,6,7, 8,9,10,11]`
pub const C_IDX_K4_P1: i32 = 256;

/// `[0,0,0,0, 0,1,2,3, 0,0,0,0, 4,5,6,7]`
pub const C_IDX_K4_P2: i32 = 320;

/// `[0 x8, 1 x8]`
pub const C_IDX_D_DMIN: i32 = 384;

pub const C_IDX_ZERO: i32 = 448;

pub const C_IDX_ONE: i32 = 512;

/// `[2,2,3,3,4,4,5,5, 0..]`
pub const C_IDX_SL: i32 = 576;

/// `[0,4,0,4,0,4,0,4, 0..]`
pub const C_SHIFT_L: i32 = 640;

/// `[0,2,4,..,14, 0..]`
pub const C_SHIFT_H: i32 = 704;

pub const C_F32_32: i32 = 768;

pub const C_U_63: i32 = 772;

pub const C_U_15: i32 = 776;

pub const C_U_C0: i32 = 780;

pub const C_U_3: i32 = 784;

pub const C_U_32: i32 = 788;

/// `-log2(e)`, for the SwiGLU.
pub const C_NEG_LOG2E: i32 = 792;

/// One, for the SwiGLU.
pub const C_ONE: i32 = 796;

pub const C_BYTES: i32 = 832;

/// Prefetch distances, in superblocks: the L1 line two ahead, the L2 six
/// ahead (about 500 ns of work at the kernels' rate, past GDDR latency).
pub const PF_L1: i32 = 2;

pub const PF_L2: i32 = 6;

pub const BLK: Gpr = Gpr::Rdi;

pub const STRIDE: Gpr = Gpr::Rdx;

pub const TAB: Gpr = Gpr::Rcx;

pub const ACC: Gpr = Gpr::R8;

pub const CONSTS: Gpr = Gpr::R9;

/// The activation rows' base registers; the ones past the fourth are
/// callee-saved and pushed by the eight-row kernels.
#[verifier::allow_in_spec]
pub fn row(i: u8) -> Gpr
    returns
        (match i {
            0 => Gpr::Rsi,
            1 => Gpr::R10,
            2 => Gpr::R11,
            3 => Gpr::Rax,
            4 => Gpr::Rbx,
            5 => Gpr::R13,
            6 => Gpr::R14,
            _ => Gpr::R15,
        }),
{
    match i {
        0 => Gpr::Rsi,
        1 => Gpr::R10,
        2 => Gpr::R11,
        3 => Gpr::Rax,
        4 => Gpr::Rbx,
        5 => Gpr::R13,
        6 => Gpr::R14,
        _ => Gpr::R15,
    }
}

/// The broadcast constant at `off`.
pub open spec fn spec_constant(off: i32) -> Src {
    Src::MemConv(Mem::at(CONSTS, off), Conv::Bcast1)
}

#[verifier::when_used_as_spec(spec_constant)]
pub fn constant(off: i32) -> (s: Src)
    ensures
        s == spec_constant(off),
        s.ok(),
{
    Src::MemConv(Mem::new(CONSTS, off), Conv::Bcast1)
}

/// The broadcast constant `2^-j`.
pub open spec fn spec_pow2neg(j: i32) -> Src {
    spec_constant((C_POW2NEG + 4 * (j - 1)) as i32)
}

#[verifier::when_used_as_spec(spec_pow2neg)]
pub fn pow2neg(j: i32) -> (s: Src)
    requires
        1 <= j <= 8,
    ensures
        s == spec_pow2neg(j),
        s.ok(),
{
    constant(C_POW2NEG + 4 * (j - 1))
}

/// The accumulator a vector `v` of activation row `i` adds into: one row
/// rotates over four registers so that consecutive vectors' fused adds
/// are independent (the vector unit's result latency is four cycles and
/// the core is in order), the four- and eight-row kernels have a register
/// per row anyway.
#[verifier::allow_in_spec]
pub fn acc(t: u8, i: u8, v: i32) -> Zmm
    requires
        v >= 0,
    returns
        (if t == 1 {
            Zmm((v % 4) as u8)
        } else {
            Zmm(i)
        }),
{
    if t == 1 {
        Zmm((v % 4) as u8)
    } else {
        Zmm(i)
    }
}

/// The activations a kernel multiplies by: float32, or float16 that the
/// memory operand itself up-converts. The second halves what crosses the
/// link and halves the activation bytes the core reads per call, for the
/// same instruction: the conversion is a field of the operand, not work.
#[derive(Clone, Copy, PartialEq, Eq, Structural, Debug)]
pub enum Act {
    F32,
    F16,
}

impl Act {
    pub open spec fn spec_suffix(self) -> Seq<char> {
        match self {
            Act::F32 => ""@,
            Act::F16 => "h"@,
        }
    }

    /// The suffix its kernels carry.
    pub fn suffix(self) -> (s: &'static str)
        ensures
            s@ == self.spec_suffix(),
    {
        match self {
            Act::F32 => "",
            Act::F16 => "h",
        }
    }

    /// The bytes one vector of activations occupies.
    #[verifier::allow_in_spec]
    pub fn stride(self) -> i32
        returns
            (match self {
                Act::F32 => 64i32,
                Act::F16 => 32i32,
            }),
    {
        match self {
            Act::F32 => 64,
            Act::F16 => 32,
        }
    }

    pub open spec fn spec_src(self, row: Gpr, v: i32) -> Src {
        let m = Mem::at(row, (self.stride() * v) as i32);
        match self {
            Act::F32 => Src::Mem(m),
            Act::F16 => Src::MemConv(m, Conv::F16),
        }
    }

    /// The operand that reads vector `v` of the row at `row`.
    pub fn src(self, row: Gpr, v: i32) -> (s: Src)
        requires
            row != Gpr::Rsp && row != Gpr::R12,
            0 <= v < 16,
        ensures
            s == self.spec_src(row, v),
            s.ok(),
    {
        let m = Mem::new(row, self.stride() * v);
        match self {
            Act::F32 => Src::Mem(m),
            Act::F16 => Src::MemConv(m, Conv::F16),
        }
    }
}

/// Pairs of registers that exist.
pub open spec fn pairs_ok(pairs: Seq<(Zmm, Zmm)>) -> bool {
    forall|i: int| 0 <= i < pairs.len() ==> (#[trigger] pairs[i]).0.ok() && pairs[i].1.ok()
}

/// Registers that exist, each with one of the sixteen vectors of a
/// superblock.
pub open spec fn batch_ok(batch: Seq<(Zmm, i32)>) -> bool {
    forall|i: int| 0 <= i < batch.len() ==> (#[trigger] batch[i]).0.ok() && 0 <= batch[i].1 < 16
}

/// Bytes to split into fields of one or two bits, with room for the
/// fields above the first from each scratch register on.
pub open spec fn fields_ok(hs: Seq<(Zmm, u8)>, width: u8) -> bool {
    &&& width == 1 || width == 2
    &&& forall|i: int| 0 <= i < hs.len() ==> (#[trigger] hs[i]).0.ok() && hs[i].1 + 8u8 / width <= 33
}

/// The register of field `at` of a byte vector: field 0 lands in the
/// vector itself, the others from its scratch register on.
#[verifier::allow_in_spec]
pub fn part(h: (Zmm, u8), at: u8) -> Zmm
    requires
        h.1 + at <= 33,
    returns
        (if at == 0 {
            h.0
        } else {
            Zmm((h.1 + at - 1) as u8)
        }),
{
    if at == 0 {
        h.0
    } else {
        Zmm(h.1 + at - 1)
    }
}

/// How many values a field of `width` bits has, as a broadcast constant.
pub open spec fn spec_field_span(width: u8) -> Src {
    spec_constant(
        if width == 1 {
            C_TWO
        } else {
            C_FOUR
        },
    )
}

#[verifier::when_used_as_spec(spec_field_span)]
pub fn field_span(width: u8) -> (s: Src)
    ensures
        s == spec_field_span(width),
        s.ok(),
{
    if width == 1 {
        constant(C_TWO)
    } else {
        constant(C_FOUR)
    }
}

/// The weight of field `at` of `width` bits, inverted, as a broadcast
/// constant.
pub open spec fn spec_field_weight(width: u8, at: u8) -> Src {
    spec_pow2neg(
        if width == 1 {
            at as i32
        } else {
            (2 * at) as i32
        },
    )
}

fn field_weight(width: u8, at: u8) -> (s: Src)
    requires
        width == 1 || width == 2,
        1 <= at < 8u8 / width,
    ensures
        s == spec_field_weight(width, at),
        s.ok(),
{
    if width == 1 {
        pow2neg(at as i32)
    } else {
        pow2neg(2 * at as i32)
    }
}

/// The registers that hold the bits of `qh` that the two groups of half
/// `half` of a Q5_K superblock take, each bit of both its vectors.
pub open spec fn spec_bit_regs(half: i32) -> [u8; 8] {
    if half == 0 {
        [12, 13, 14, 21, 15, 22, 16, 23]
    } else {
        [17, 24, 18, 25, 19, 26, 20, 27]
    }
}

fn bit_regs(half: i32) -> (r: [u8; 8])
    ensures
        r == spec_bit_regs(half),
        forall|k: int| 0 <= k < 8 ==> #[trigger] r[k] < 32,
{
    if half == 0 {
        [12, 13, 14, 21, 15, 22, 16, 23]
    } else {
        [17, 24, 18, 25, 19, 26, 20, 27]
    }
}

/// A prefetch of each of the `lines` lines from rax on.
pub open spec fn prefetches(lines: i32, cache: Cache) -> Seq<InsnV> {
    Seq::new(lines as nat, |j: int| InsnV::vprefetch(Mem::at(Gpr::Rax, (64 * j) as i32), cache))
}

impl Asm {
    /// A prefetch of each of the `lines` lines from rax on.
    fn prefetches(&mut self, lines: i32, cache: Cache)
        requires
            0 <= lines <= 64,
        ensures
            final(self)@ == old(self)@.all(prefetches(lines, cache)),
    {
        let ghost s = prefetches(lines, cache);
        let ghost l = self@;
        proof {
            l.lemma_ends(s);
        }
        for j in 0..lines
            invariant
                s == prefetches(lines, cache),
                s.len() == lines,
                self@ == l.all(s.take(j as int)),
                0 <= lines <= 64,
        {
            proof {
                l.lemma_take(s, j as int);
            }
            self.i(&conv::vprefetch(Mem::new(Gpr::Rax, 64 * j), cache));
        }
    }
}

impl Listing {
    /// Prefetch the superblocks `PF_L1` and `PF_L2` calls ahead of this one,
    /// every line they can touch (`bytes` per superblock), with the stride
    /// the caller passes on the stack. Runs first, so rax and r11 are free.
    #[verifier::opaque]
    pub open spec fn prefetch_ahead(self, bytes: i32) -> Listing {
        self
            .t("mov 8(%rsp), %r11"@)
            .lit("    lea (%rdi,%r11,"@)
            .num(PF_L1 as int)
            .lit("), %rax\n"@)
            .all(prefetches(((bytes + 63) / 64 + 1) as i32, Cache::L1))
            .lit("    lea (%rax,%r11,"@)
            .num(PF_L2 - PF_L1)
            .lit("), %rax\n"@)
            .all(prefetches(((bytes + 63) / 64 + 1) as i32, Cache::L2))
    }
}

impl Asm {
    /// Prefetch the superblocks `PF_L1` and `PF_L2` calls ahead of this one,
    /// every line they can touch (`bytes` per superblock), with the stride
    /// the caller passes on the stack. Runs first, so rax and r11 are free.
    fn prefetch_ahead(&mut self, bytes: i32)
        requires
            0 <= bytes <= 1024,
        ensures
            final(self)@ == old(self)@.prefetch_ahead(bytes),
    {
        reveal(Listing::prefetch_ahead);
        self.t("mov 8(%rsp), %r11");
        self.lit("    lea (%rdi,%r11,");
        self.num(PF_L1);
        self.lit("), %rax\n");
        self.prefetches((bytes + 63) / 64 + 1, Cache::L1);
        self.lit("    lea (%rax,%r11,");
        self.num(PF_L2 - PF_L1);
        self.lit("), %rax\n");
        self.prefetches((bytes + 63) / 64 + 1, Cache::L2);
    }
}

/// The accumulators loaded, one register per activation row.
pub open spec fn acc_loads(t: u8) -> Seq<InsnV> {
    Seq::new(t as nat, |j: int| InsnV::vmovaps_load(Zmm(j as u8), Mem::at(ACC, (64 * j) as i32)))
}

impl Asm {
    /// The accumulators loaded, one register per activation row.
    fn acc_loads(&mut self, t: u8)
        requires
            t <= 8,
        ensures
            final(self)@ == old(self)@.all(acc_loads(t)),
    {
        let ghost s = acc_loads(t);
        let ghost l = self@;
        proof {
            l.lemma_ends(s);
        }
        for j in 0..t
            invariant
                s == acc_loads(t),
                s.len() == t,
                self@ == l.all(s.take(j as int)),
                t <= 8,
        {
            proof {
                l.lemma_take(s, j as int);
            }
            self.i(&plain::vmovaps_load(Zmm(j as u8), Mem::new(ACC, 64 * j as i32)));
        }
    }
}

/// The accumulators stored, one register per activation row.
pub open spec fn acc_stores(t: u8) -> Seq<InsnV> {
    Seq::new(t as nat, |j: int| InsnV::vmovaps_store(Mem::at(ACC, (64 * j) as i32), Zmm(j as u8)))
}

impl Asm {
    /// The accumulators stored, one register per activation row.
    fn acc_stores(&mut self, t: u8)
        requires
            t <= 8,
        ensures
            final(self)@ == old(self)@.all(acc_stores(t)),
    {
        let ghost s = acc_stores(t);
        let ghost l = self@;
        proof {
            l.lemma_ends(s);
        }
        for j in 0..t
            invariant
                s == acc_stores(t),
                s.len() == t,
                self@ == l.all(s.take(j as int)),
                t <= 8,
        {
            proof {
                l.lemma_take(s, j as int);
            }
            self.i(&plain::vmovaps_store(Mem::new(ACC, 64 * j as i32), Zmm(j as u8)));
        }
    }
}

/// How a format's scales are prepared: each reads the format's scale bytes
/// from the block and writes the sixteen per-vector scales to
/// `[rcx + TAB_SC]` and the sixteen minuends, where there are any, to
/// `[rcx + TAB_MN]`, so the kernel can broadcast them. It runs before the
/// row registers are set, so it may use rax; it uses zmm16 upward. The
/// card's scalar float unit is x87 and the packed 6-bit fields are branchy
/// in scalar code, which is why this is vector code.
#[derive(Clone, Copy, PartialEq, Eq, Structural, Debug)]
pub enum Prep {
    K4,
    Q6K,
    Q80,
    Iq4xs,
}

impl Listing {
    pub open spec fn save_rows(self, t: u8) -> Listing {
        if t > 4 {
            self.t("push %rbx"@).t("push %r13"@).t("push %r14"@).t("push %r15"@)
        } else {
            self
        }
    }

    pub open spec fn restore_rows(self, t: u8) -> Listing {
        if t > 4 {
            self.t("pop %r15"@).t("pop %r14"@).t("pop %r13"@).t("pop %rbx"@)
        } else {
            self
        }
    }

    pub open spec fn prep(self, prep: Prep) -> Listing {
        match prep {
            Prep::K4 => self.prep_k4(),
            Prep::Q6K => self.prep_q6k(),
            Prep::Q80 => self.prep_q8_0(),
            Prep::Iq4xs => self.prep_iq4xs(),
        }
    }

    /// The pointers of rows 1 to `t - 1` loaded.
    pub open spec fn row_pointers(self, t: u8) -> Listing
        decreases t,
    {
        if t <= 1 {
            self
        } else {
            let i = (t - 1) as u8;
            self.row_pointers(i).lit("    mov "@).num(8 * i).lit("(%"@).reg(STRIDE).lit("), %"@).reg(
                row(i),
            ).lit("\n"@)
        }
    }

    /// The three spare accumulators of the one-row kernels cleared.
    pub open spec fn spare_accs(self, t: u8) -> Listing {
        if t == 1 {
            self.clear(1).clear(2).clear(3)
        } else {
            self
        }
    }

    /// The four accumulators of the one-row kernels added up.
    pub open spec fn fold_accs(self, t: u8) -> Listing {
        if t == 1 {
            self.fold(0, 1).fold(2, 3).fold(0, 2)
        } else {
            self
        }
    }
}

impl Asm {
    fn save_rows(&mut self, t: u8)
        ensures
            final(self)@ == old(self)@.save_rows(t),
    {
        if t > 4 {
            self.t("push %rbx");
            self.t("push %r13");
            self.t("push %r14");
            self.t("push %r15");
        }
    }

    fn restore_rows(&mut self, t: u8)
        ensures
            final(self)@ == old(self)@.restore_rows(t),
    {
        if t > 4 {
            self.t("pop %r15");
            self.t("pop %r14");
            self.t("pop %r13");
            self.t("pop %rbx");
        }
    }

    fn prep(&mut self, prep: Prep)
        ensures
            final(self)@ == old(self)@.prep(prep),
    {
        match prep {
            Prep::K4 => self.prep_k4(),
            Prep::Q6K => self.prep_q6k(),
            Prep::Q80 => self.prep_q8_0(),
            Prep::Iq4xs => self.prep_iq4xs(),
        }
    }

    /// The rows after the first come from the caller's array, not from a
    /// stride: a mixture of experts groups the columns that chose the same
    /// expert, and those columns' activation rows are wherever the tokens
    /// that chose it happen to be.
    fn row_pointers(&mut self, t: u8)
        requires
            t <= 8,
        ensures
            final(self)@ == old(self)@.row_pointers(t),
    {
        let ghost l = self@;
        let mut i: u8 = 1;
        while i < t
            invariant
                1 <= i,
                i <= t || i == 1,
                t <= 8,
                self@ == l.row_pointers(i),
            decreases t - i,
        {
            self.lit("    mov ");
            self.num(8 * i as i32);
            self.lit("(%");
            self.lit(STRIDE.name());
            self.lit("), %");
            self.lit(row(i).name());
            self.lit("\n");
            i = i + 1;
        }
    }

    fn spare_accs(&mut self, t: u8)
        ensures
            final(self)@ == old(self)@.spare_accs(t),
    {
        if t == 1 {
            self.clear(1);
            self.clear(2);
            self.clear(3);
        }
    }

    fn fold_accs(&mut self, t: u8)
        ensures
            final(self)@ == old(self)@.fold_accs(t),
    {
        if t == 1 {
            self.fold(0, 1);
            self.fold(2, 3);
            self.fold(0, 2);
        }
    }
}

impl Listing {
    /// The head of a kernel: the prefetches, the saved registers, the scales,
    /// the row pointers and the accumulators.
    #[verifier::opaque]
    pub open spec fn prologue(self, name: Seq<char>, t: u8, what: Seq<char>, block_bytes: i32, prep: Prep) -> Listing {
        self
            .lit("# "@)
            .lit(name)
            .lit(": "@)
            .lit(what)
            .lit(", against "@)
            .num(t as i32 as int)
            .lit(" activation row(s)\n"@)
            .label(name)
            .prefetch_ahead(block_bytes)
            .save_rows(t)
            .prep(prep)
            .row_pointers(t)
            .all(acc_loads(t))
            .spare_accs(t)
    }
}

impl Asm {
    /// The head of a kernel: the prefetches, the saved registers, the scales,
    /// the row pointers and the accumulators.
    fn prologue(&mut self, name: &str, t: u8, what: &str, block_bytes: i32, prep: Prep)
        requires
            t <= 8,
            0 <= block_bytes <= 1024,
        ensures
            final(self)@ == old(self)@.prologue(name@, t, what@, block_bytes, prep),
    {
        reveal(Listing::prologue);
        self.lit("# ");
        self.lit(name);
        self.lit(": ");
        self.lit(what);
        self.lit(", against ");
        self.num(t as i32);
        self.lit(" activation row(s)\n");
        self.label(name);
        self.prefetch_ahead(block_bytes);
        self.save_rows(t);
        self.prep(prep);
        self.row_pointers(t);
        self.acc_loads(t);
        self.spare_accs(t);
    }
}

impl Listing {
    /// The tail of a kernel: the accumulators folded and stored, the saved
    /// registers back.
    #[verifier::opaque]
    pub open spec fn epilogue(self, name: Seq<char>, t: u8) -> Listing {
        self
            .fold_accs(t)
            .all(acc_stores(t))
            .restore_rows(t)
            .t("ret"@)
            .size(name)
    }
}

impl Asm {
    /// The tail of a kernel: the accumulators folded and stored, the saved
    /// registers back.
    fn epilogue(&mut self, name: &str, t: u8)
        requires
            t <= 8,
        ensures
            final(self)@ == old(self)@.epilogue(name@, t),
    {
        reveal(Listing::epilogue);
        self.fold_accs(t);
        self.acc_stores(t);
        self.restore_rows(t);
        self.t("ret");
        self.size(name);
    }
}

impl Listing {
    /// Sixteen elements at `[rdi + disp]`, as floats, from any alignment (the
    /// unpack pair).
    #[verifier::opaque]
    pub open spec fn bytes_unaligned(self, dst: u8, disp: i32, conv: Conv) -> Listing {
        self
            .i(InsnV::vloadunpacklps_conv(Zmm(dst), Mem::at(BLK, (disp) as i32), conv, K(0)))
            .i(InsnV::vloadunpackhps_conv(Zmm(dst), Mem::at(BLK, (disp + 64) as i32), conv, K(0)))
    }
}

impl Asm {
    /// Sixteen elements at `[rdi + disp]`, as floats, from any alignment (the
    /// unpack pair).
    fn bytes_unaligned(&mut self, dst: u8, disp: i32, conv: Conv)
        requires
            dst < 32,
            0 <= disp <= 4096,
            !conv.broadcasts(),
        ensures
            final(self)@ == old(self)@.bytes_unaligned(dst, disp, conv),
    {
        reveal(Listing::bytes_unaligned);
        self.i(&conv::vloadunpacklps_conv(Zmm(dst), Mem::new(BLK, disp), conv, K(0)));
        self.i(&conv::vloadunpackhps_conv(Zmm(dst), Mem::new(BLK, disp + 64), conv, K(0)));
    }
}

impl Listing {
    /// Sixteen bytes at a 16-byte aligned `[rdi + disp]`, as floats.
    #[verifier::opaque]
    pub open spec fn bytes_aligned(self, dst: u8, disp: i32, conv: Conv) -> Listing {
        self
            .i(InsnV::vmovaps_load_conv(Zmm(dst), Mem::at(BLK, (disp) as i32), conv, K(0)))
    }
}

impl Asm {
    /// Sixteen bytes at a 16-byte aligned `[rdi + disp]`, as floats.
    fn bytes_aligned(&mut self, dst: u8, disp: i32, conv: Conv)
        requires
            dst < 32,
            0 <= disp <= 4096,
        ensures
            final(self)@ == old(self)@.bytes_aligned(dst, disp, conv),
    {
        reveal(Listing::bytes_aligned);
        self.i(&conv::vmovaps_load_conv(Zmm(dst), Mem::new(BLK, disp), conv, K(0)));
    }
}

/// A sixteenth of each byte.
pub open spec fn nibble_high(pairs: Seq<(Zmm, Zmm)>) -> Seq<InsnV> {
    Seq::new(pairs.len(), |j: int| InsnV::vmulps(pairs[j].1, pairs[j].0, pow2neg(4), K(0)))
}

impl Asm {
    /// A sixteenth of each byte.
    fn nibble_high(&mut self, pairs: &Vec<(Zmm, Zmm)>)
        requires
            pairs_ok(pairs@),
        ensures
            final(self)@ == old(self)@.all(nibble_high(pairs@)),
    {
        let ghost s = nibble_high(pairs@);
        let ghost l = self@;
        proof {
            l.lemma_ends(s);
        }
        for j in 0..pairs.len()
            invariant
                s == nibble_high(pairs@),
                s.len() == pairs.len(),
                self@ == l.all(s.take(j as int)),
                pairs_ok(pairs@),
        {
            proof {
                l.lemma_take(s, j as int);
            }
            self.i(&plain::vmulps(pairs[j].1, pairs[j].0, pow2neg(4), K(0)));
        }
    }
}

/// Rounded down: the high nibbles.
pub open spec fn nibble_floor(pairs: Seq<(Zmm, Zmm)>) -> Seq<InsnV> {
    Seq::new(pairs.len(), |j: int| InsnV::vrndfxpntps(pairs[j].1, Src::Reg(pairs[j].1), Round::Down, K(0)))
}

impl Asm {
    /// Rounded down: the high nibbles.
    fn nibble_floor(&mut self, pairs: &Vec<(Zmm, Zmm)>)
        requires
            pairs_ok(pairs@),
        ensures
            final(self)@ == old(self)@.all(nibble_floor(pairs@)),
    {
        let ghost s = nibble_floor(pairs@);
        let ghost l = self@;
        proof {
            l.lemma_ends(s);
        }
        for j in 0..pairs.len()
            invariant
                s == nibble_floor(pairs@),
                s.len() == pairs.len(),
                self@ == l.all(s.take(j as int)),
                pairs_ok(pairs@),
        {
            proof {
                l.lemma_take(s, j as int);
            }
            self.i(&conv::vrndfxpntps(pairs[j].1, Src::Reg(pairs[j].1), Round::Down, K(0)));
        }
    }
}

/// What is left: the low nibbles.
pub open spec fn nibble_low(pairs: Seq<(Zmm, Zmm)>) -> Seq<InsnV> {
    Seq::new(pairs.len(), |j: int| InsnV::vfnmadd231ps(pairs[j].0, pairs[j].1, constant(C_SIXTEEN), K(0)))
}

impl Asm {
    /// What is left: the low nibbles.
    fn nibble_low(&mut self, pairs: &Vec<(Zmm, Zmm)>)
        requires
            pairs_ok(pairs@),
        ensures
            final(self)@ == old(self)@.all(nibble_low(pairs@)),
    {
        let ghost s = nibble_low(pairs@);
        let ghost l = self@;
        proof {
            l.lemma_ends(s);
        }
        for j in 0..pairs.len()
            invariant
                s == nibble_low(pairs@),
                s.len() == pairs.len(),
                self@ == l.all(s.take(j as int)),
                pairs_ok(pairs@),
        {
            proof {
                l.lemma_take(s, j as int);
            }
            self.i(&conv::vfnmadd231ps(pairs[j].0, pairs[j].1, constant(C_SIXTEEN), K(0)));
        }
    }
}

impl Listing {
    /// Each first register holds sixteen bytes as floats (0 to 255):
    /// afterwards the matching second is the high nibbles and the first the
    /// low ones (`floor(b / 16)`, then `b - 16 hi`).
    #[verifier::opaque]
    pub open spec fn split_nibbles(self, pairs: Seq<(Zmm, Zmm)>) -> Listing {
        self
            .all(nibble_high(pairs))
            .all(nibble_floor(pairs))
            .all(nibble_low(pairs))
    }
}

impl Asm {
    /// Each first register holds sixteen bytes as floats (0 to 255):
    /// afterwards the matching second is the high nibbles and the first the
    /// low ones (`floor(b / 16)`, then `b - 16 hi`).
    fn split_nibbles(&mut self, pairs: &Vec<(Zmm, Zmm)>)
        requires
            pairs_ok(pairs@),
        ensures
            final(self)@ == old(self)@.split_nibbles(pairs@),
    {
        reveal(Listing::split_nibbles);
        self.nibble_high(pairs);
        self.nibble_floor(pairs);
        self.nibble_low(pairs);
    }
}

/// `w = w * sc[v]` for each (register, vector index).
pub open spec fn scale(batch: Seq<(Zmm, i32)>) -> Seq<InsnV> {
    Seq::new(batch.len(), |j: int| InsnV::vmulps(batch[j].0, batch[j].0, Src::MemConv(Mem::at(TAB, (TAB_SC + 4 * batch[j].1) as i32), Conv::Bcast1), K(0)))
}

impl Asm {
    /// `w = w * sc[v]` for each (register, vector index).
    fn scale(&mut self, batch: &Vec<(Zmm, i32)>)
        requires
            batch_ok(batch@),
        ensures
            final(self)@ == old(self)@.all(scale(batch@)),
    {
        let ghost s = scale(batch@);
        let ghost l = self@;
        proof {
            l.lemma_ends(s);
        }
        for j in 0..batch.len()
            invariant
                s == scale(batch@),
                s.len() == batch.len(),
                self@ == l.all(s.take(j as int)),
                batch_ok(batch@),
        {
            proof {
                l.lemma_take(s, j as int);
            }
            self.i(&plain::vmulps(batch[j].0, batch[j].0, Src::MemConv(Mem::new(TAB, TAB_SC + 4 * batch[j].1), Conv::Bcast1), K(0)));
        }
    }
}

/// `w = w - mn[v]` for each (register, vector index).
pub open spec fn offset(batch: Seq<(Zmm, i32)>) -> Seq<InsnV> {
    Seq::new(batch.len(), |j: int| InsnV::vsubps(batch[j].0, batch[j].0, Src::MemConv(Mem::at(TAB, (TAB_MN + 4 * batch[j].1) as i32), Conv::Bcast1), K(0)))
}

impl Asm {
    /// `w = w - mn[v]` for each (register, vector index).
    fn offset(&mut self, batch: &Vec<(Zmm, i32)>)
        requires
            batch_ok(batch@),
        ensures
            final(self)@ == old(self)@.all(offset(batch@)),
    {
        let ghost s = offset(batch@);
        let ghost l = self@;
        proof {
            l.lemma_ends(s);
        }
        for j in 0..batch.len()
            invariant
                s == offset(batch@),
                s.len() == batch.len(),
                self@ == l.all(s.take(j as int)),
                batch_ok(batch@),
        {
            proof {
                l.lemma_take(s, j as int);
            }
            self.i(&plain::vsubps(batch[j].0, batch[j].0, Src::MemConv(Mem::new(TAB, TAB_MN + 4 * batch[j].1), Conv::Bcast1), K(0)));
        }
    }
}

/// `acc += w * x[i][16 v .. 16 v + 16]` for each activation row.
pub open spec fn fma_row(w: Zmm, v: i32, t: u8, x: Act) -> Seq<InsnV> {
    Seq::new(t as nat, |j: int| InsnV::vfmadd231ps(acc(t, j as u8, v), w, x.spec_src(row(j as u8), v), K(0)))
}

impl Asm {
    /// `acc += w * x[i][16 v .. 16 v + 16]` for each activation row.
    fn fma_row(&mut self, w: Zmm, v: i32, t: u8, x: Act)
        requires
            w.ok(),
            0 <= v < 16,
            t <= 8,
        ensures
            final(self)@ == old(self)@.all(fma_row(w, v, t, x)),
    {
        let ghost s = fma_row(w, v, t, x);
        let ghost l = self@;
        proof {
            l.lemma_ends(s);
        }
        for j in 0..t
            invariant
                s == fma_row(w, v, t, x),
                s.len() == t,
                self@ == l.all(s.take(j as int)),
                w.ok(),
                0 <= v < 16,
                t <= 8,
        {
            proof {
                l.lemma_take(s, j as int);
            }
            self.i(&plain::vfmadd231ps(acc(t, j, v), w, x.src(row(j), v), K(0)));
        }
    }
}

/// `w += 16 * bits` for each pair: the fifth or sixth bit joins the nibble.
pub open spec fn add_high_bits(pairs: Seq<(Zmm, Zmm)>) -> Seq<InsnV> {
    Seq::new(pairs.len(), |j: int| InsnV::vfmadd231ps(pairs[j].0, pairs[j].1, constant(C_SIXTEEN), K(0)))
}

impl Asm {
    /// `w += 16 * bits` for each pair: the fifth or sixth bit joins the nibble.
    fn add_high_bits(&mut self, pairs: &Vec<(Zmm, Zmm)>)
        requires
            pairs_ok(pairs@),
        ensures
            final(self)@ == old(self)@.all(add_high_bits(pairs@)),
    {
        let ghost s = add_high_bits(pairs@);
        let ghost l = self@;
        proof {
            l.lemma_ends(s);
        }
        for j in 0..pairs.len()
            invariant
                s == add_high_bits(pairs@),
                s.len() == pairs.len(),
                self@ == l.all(s.take(j as int)),
                pairs_ok(pairs@),
        {
            proof {
                l.lemma_take(s, j as int);
            }
            self.i(&plain::vfmadd231ps(pairs[j].0, pairs[j].1, constant(C_SIXTEEN), K(0)));
        }
    }
}

/// The bytes divided by the weight of field `at`.
pub open spec fn field_scaled(hs: Seq<(Zmm, u8)>, width: u8, at: u8) -> Seq<InsnV> {
    Seq::new(hs.len(), |j: int| InsnV::vmulps(part(hs[j], at), hs[j].0, spec_field_weight(width, at), K(0)))
}

impl Asm {
    /// The bytes divided by the weight of field `at`.
    fn field_scaled(&mut self, hs: &Vec<(Zmm, u8)>, width: u8, at: u8)
        requires
            fields_ok(hs@, width),
            at < 8u8 / width,
            at >= 1,
        ensures
            final(self)@ == old(self)@.all(field_scaled(hs@, width, at)),
    {
        let ghost s = field_scaled(hs@, width, at);
        let ghost l = self@;
        proof {
            l.lemma_ends(s);
        }
        for j in 0..hs.len()
            invariant
                s == field_scaled(hs@, width, at),
                s.len() == hs.len(),
                self@ == l.all(s.take(j as int)),
                fields_ok(hs@, width),
                at < 8u8 / width,
                at >= 1,
        {
            proof {
                l.lemma_take(s, j as int);
            }
            self.i(&plain::vmulps(part(hs[j], at), hs[j].0, field_weight(width, at), K(0)));
        }
    }
}

/// Rounded down.
pub open spec fn field_floor(hs: Seq<(Zmm, u8)>, width: u8, at: u8) -> Seq<InsnV> {
    Seq::new(hs.len(), |j: int| InsnV::vrndfxpntps(part(hs[j], at), Src::Reg(part(hs[j], at)), Round::Down, K(0)))
}

impl Asm {
    /// Rounded down.
    fn field_floor(&mut self, hs: &Vec<(Zmm, u8)>, width: u8, at: u8)
        requires
            fields_ok(hs@, width),
            at < 8u8 / width,
        ensures
            final(self)@ == old(self)@.all(field_floor(hs@, width, at)),
    {
        let ghost s = field_floor(hs@, width, at);
        let ghost l = self@;
        proof {
            l.lemma_ends(s);
        }
        for j in 0..hs.len()
            invariant
                s == field_floor(hs@, width, at),
                s.len() == hs.len(),
                self@ == l.all(s.take(j as int)),
                fields_ok(hs@, width),
                at < 8u8 / width,
        {
            proof {
                l.lemma_take(s, j as int);
            }
            self.i(&conv::vrndfxpntps(part(hs[j], at), Src::Reg(part(hs[j], at)), Round::Down, K(0)));
        }
    }
}

/// Less the fields above.
pub open spec fn field_low(hs: Seq<(Zmm, u8)>, width: u8, at: u8) -> Seq<InsnV> {
    Seq::new(hs.len(), |j: int| InsnV::vfnmadd231ps(part(hs[j], at), part(hs[j], (at + 1) as u8), field_span(width), K(0)))
}

impl Asm {
    /// Less the fields above.
    fn field_low(&mut self, hs: &Vec<(Zmm, u8)>, width: u8, at: u8)
        requires
            fields_ok(hs@, width),
            at < 8u8 / width,
            at + 1 < 8u8 / width,
        ensures
            final(self)@ == old(self)@.all(field_low(hs@, width, at)),
    {
        let ghost s = field_low(hs@, width, at);
        let ghost l = self@;
        proof {
            l.lemma_ends(s);
        }
        for j in 0..hs.len()
            invariant
                s == field_low(hs@, width, at),
                s.len() == hs.len(),
                self@ == l.all(s.take(j as int)),
                fields_ok(hs@, width),
                at < 8u8 / width,
                at + 1 < 8u8 / width,
        {
            proof {
                l.lemma_take(s, j as int);
            }
            self.i(&conv::vfnmadd231ps(part(hs[j], at), part(hs[j], at + 1), field_span(width), K(0)));
        }
    }
}

impl Listing {
    /// `w = w * sc[v] - mn[v]` for each (register, vector index) of the
    /// batch, then `acc += w * x[i][16 v .. 16 v + 16]` for each activation
    /// row.
    #[verifier::opaque]
    pub open spec fn dot(self, t: u8, batch: Seq<(Zmm, i32)>, minuend: bool, x: Act) -> Listing {
        let scaled = self.all(scale(batch));
        let finished = if minuend {
            scaled.all(offset(batch))
        } else {
            scaled
        };
        finished.fmas(t, batch, x)
    }

    pub open spec fn fmas(self, t: u8, batch: Seq<(Zmm, i32)>, x: Act) -> Listing
        decreases batch.len(),
    {
        if batch.len() == 0 {
            self
        } else {
            self.fmas(t, batch.drop_last(), x).all(fma_row(batch.last().0, batch.last().1, t, x))
        }
    }

    /// The stages below field `n` of `fields_of`.
    pub open spec fn fields_scaled(self, hs: Seq<(Zmm, u8)>, width: u8, n: u8) -> Listing
        decreases n,
    {
        if n <= 1 {
            self
        } else {
            self.fields_scaled(hs, width, (n - 1) as u8).all(field_scaled(hs, width, (n - 1) as u8))
        }
    }

    pub open spec fn fields_floor(self, hs: Seq<(Zmm, u8)>, width: u8, n: u8) -> Listing
        decreases n,
    {
        if n <= 1 {
            self
        } else {
            self.fields_floor(hs, width, (n - 1) as u8).all(field_floor(hs, width, (n - 1) as u8))
        }
    }

    pub open spec fn fields_low(self, hs: Seq<(Zmm, u8)>, width: u8, n: u8) -> Listing
        decreases n,
    {
        if n == 0 {
            self
        } else {
            self.fields_low(hs, width, (n - 1) as u8).all(field_low(hs, width, (n - 1) as u8))
        }
    }

    /// The fields of `width` bits of the byte vectors `hs` (as floats),
    /// each into its own register: `h_j = floor(h * 2^-(j width))` for
    /// every field above the first, then `f_j = h_j - 2^width h_{j+1}` in
    /// increasing j (the top field is `h_j` itself, as `h < 256`); field 0
    /// lands in `h`. Stage by stage across the vectors.
    #[verifier::opaque]
    pub open spec fn fields_of(self, hs: Seq<(Zmm, u8)>, width: u8) -> Listing {
        let n = (8u8 / width) as u8;
        self.fields_scaled(hs, width, n).fields_floor(hs, width, n).fields_low(
            hs,
            width,
            (n - 1) as u8,
        )
    }
}

impl Asm {
    fn dot(&mut self, t: u8, batch: &Vec<(Zmm, i32)>, minuend: bool, x: Act)
        requires
            batch_ok(batch@),
            t <= 8,
        ensures
            final(self)@ == old(self)@.dot(t, batch@, minuend, x),
    {
        reveal(Listing::dot);
        self.scale(batch);
        if minuend {
            self.offset(batch);
        }
        self.fmas(t, batch, x);
    }

    /// Ordered so the same accumulator is not written twice in a row.
    fn fmas(&mut self, t: u8, batch: &Vec<(Zmm, i32)>, x: Act)
        requires
            batch_ok(batch@),
            t <= 8,
        ensures
            final(self)@ == old(self)@.fmas(t, batch@, x),
    {
        let ghost l = self@;
        for j in 0..batch.len()
            invariant
                batch_ok(batch@),
                t <= 8,
                self@ == l.fmas(t, batch@.take(j as int), x),
        {
            assert(batch@.take(j + 1).drop_last() =~= batch@.take(j as int));
            self.fma_row(batch[j].0, batch[j].1, t, x);
        }
        assert(batch@.take(batch@.len() as int) =~= batch@);
    }

    fn fields_of(&mut self, hs: &Vec<(Zmm, u8)>, width: u8)
        requires
            fields_ok(hs@, width),
        ensures
            final(self)@ == old(self)@.fields_of(hs@, width),
    {
        reveal(Listing::fields_of);
        let n: u8 = 8u8 / width;
        let ghost l = self@;
        let mut j: u8 = 1;
        while j < n
            invariant
                1 <= j <= n,
                n == 8u8 / width,
                fields_ok(hs@, width),
                self@ == l.fields_scaled(hs@, width, j),
            decreases n - j,
        {
            self.field_scaled(hs, width, j);
            j = j + 1;
        }
        let ghost l1 = self@;
        let mut j: u8 = 1;
        while j < n
            invariant
                1 <= j <= n,
                n == 8u8 / width,
                fields_ok(hs@, width),
                self@ == l1.fields_floor(hs@, width, j),
            decreases n - j,
        {
            self.field_floor(hs, width, j);
            j = j + 1;
        }
        let ghost l2 = self@;
        let mut j: u8 = 0;
        while j < n - 1
            invariant
                0 <= j <= n - 1,
                n == 8u8 / width,
                fields_ok(hs@, width),
                self@ == l2.fields_low(hs@, width, j),
            decreases n - j,
        {
            self.field_low(hs, width, j);
            j = j + 1;
        }
    }
}

/// The registers `r` finished in order as the vectors of half `half` of a
/// superblock.
pub open spec fn spec_eight(r: [u8; 8], half: i32) -> Seq<(Zmm, i32)> {
    Seq::new(8, |k: int| (Zmm(r[k]), (8 * half + k) as i32))
}

fn eight(r: [u8; 8], half: i32) -> (v: Vec<(Zmm, i32)>)
    requires
        forall|k: int| 0 <= k < 8 ==> #[trigger] r[k] < 32,
        half == 0 || half == 1,
    ensures
        v@ == spec_eight(r, half),
        batch_ok(v@),
{
    let mut v: Vec<(Zmm, i32)> = Vec::new();
    for k in 0..8usize
        invariant
            forall|k: int| 0 <= k < 8 ==> #[trigger] r[k] < 32,
            half == 0 || half == 1,
            v@ =~= spec_eight(r, half).take(k as int),
    {
        v.push((Zmm(r[k]), 8 * half + k as i32));
    }
    v
}

/// The registers `a`, each with its fellow in `b`.
pub open spec fn spec_pairs<const N: usize>(a: [u8; N], b: [u8; N]) -> Seq<(Zmm, Zmm)> {
    Seq::new(N as nat, |k: int| (Zmm(a[k]), Zmm(b[k])))
}

fn pairs<const N: usize>(a: [u8; N], b: [u8; N]) -> (v: Vec<(Zmm, Zmm)>)
    requires
        forall|k: int| 0 <= k < N ==> #[trigger] a[k] < 32,
        forall|k: int| 0 <= k < N ==> #[trigger] b[k] < 32,
    ensures
        v@ == spec_pairs(a, b),
        pairs_ok(v@),
{
    let mut v: Vec<(Zmm, Zmm)> = Vec::new();
    for k in 0..N
        invariant
            forall|k: int| 0 <= k < N ==> #[trigger] a[k] < 32,
            forall|k: int| 0 <= k < N ==> #[trigger] b[k] < 32,
            v@ =~= spec_pairs(a, b).take(k as int),
    {
        v.push((Zmm(a[k]), Zmm(b[k])));
    }
    v
}

/// A kernel's name: its stem, how many rows it takes, and the suffix of
/// its activations.
pub open spec fn kernel_name_of(stem: Seq<char>, t: u8, x: Act) -> Seq<char> {
    Listing::empty().lit(stem).num(t as int).lit(x.spec_suffix()).s
}

fn kernel_name(stem: &str, t: u8, x: Act) -> (s: String)
    ensures
        s@ == kernel_name_of(stem@, t, x),
{
    let mut a = Asm::new();
    a.lit(stem);
    a.num(t as i32);
    a.lit(x.suffix());
    a.0
}

impl Listing {
    /// k1 from an immediate, by way of eax.
    #[verifier::opaque]
    pub open spec fn kmask(self, bits: i32) -> Listing {
        self
            .lit("    mov $"@)
            .num(bits as int)
            .lit(", %eax\n"@)
            .i(InsnV::kmov_k_r32(K(1), Gpr::Rax))
    }
}

impl Asm {
    /// k1 from an immediate, by way of eax.
    fn kmask(&mut self, bits: i32)
        ensures
            final(self)@ == old(self)@.kmask(bits),
    {
        reveal(Listing::kmask);
        self.lit("    mov $");
        self.num(bits);
        self.lit(", %eax\n");
        self.i(&plain::kmov_k_r32(K(1), Gpr::Rax));
    }
}

impl Listing {
    /// The lanes of `v` that the index vector at `off` picks, into the table.
    #[verifier::opaque]
    pub open spec fn expanded(self, v: u8, off: i32, table: i32) -> Listing {
        self
            .i(InsnV::vmovaps_load(Zmm(30), Mem::at(CONSTS, (off) as i32)))
            .i(InsnV::vpermd(Zmm(31), Zmm(30), Src::Reg(Zmm(v)), K(0)))
            .i(InsnV::vmovaps_store(Mem::at(TAB, (table) as i32), Zmm(31)))
    }
}

impl Asm {
    /// The lanes of `v` that the index vector at `off` picks, into the table.
    fn expanded(&mut self, v: u8, off: i32, table: i32)
        requires
            v < 32,
        ensures
            final(self)@ == old(self)@.expanded(v, off, table),
    {
        reveal(Listing::expanded);
        self.i(&plain::vmovaps_load(Zmm(30), Mem::new(CONSTS, off)));
        self.i(&conv::vpermd(Zmm(31), Zmm(30), Src::Reg(Zmm(v)), K(0)));
        self.i(&plain::vmovaps_store(Mem::new(TAB, table), Zmm(31)));
    }
}

impl Listing {
    /// The scales in lanes 0 to 7 of `v`, each for two vectors, stored.
    #[verifier::opaque]
    pub open spec fn store_expanded(self, v: u8) -> Listing {
        self
            .expanded(v, C_IDX_EXPAND, TAB_SC)
    }
}

impl Asm {
    /// The scales in lanes 0 to 7 of `v`, each for two vectors, stored.
    fn store_expanded(&mut self, v: u8)
        requires
            v < 32,
        ensures
            final(self)@ == old(self)@.store_expanded(v),
    {
        reveal(Listing::store_expanded);
        self.expanded(v, C_IDX_EXPAND, TAB_SC);
    }
}

impl Listing {
    /// Q4_K and Q5_K: twelve bytes at `blk + 4` hold eight 6-bit scales and
    /// eight 6-bit minimums: for j < 4 `sc = q[j] & 63`, `m = q[j+4] & 63`;
    /// for j >= 4 `sc = (q[j+4] & 15) | (q[j-4] >> 6) << 4`,
    /// `m = (q[j+4] >> 4) | (q[j] >> 6) << 4`. Lanes 0 to 7 become the scales,
    /// 8 to 15 the minimums: two permutes pick the main byte and the
    /// high-bits byte of every lane, the two forms are computed for all lanes
    /// and the right one kept by mask. Then times the block's `d` and `dmin`
    /// (halfs at `blk + 0` and `+ 2`), expanded to the sixteen vectors.
    #[verifier::opaque]
    pub open spec fn prep_k4(self) -> Listing {
        self
            .i(InsnV::vloadunpackld_conv(Zmm(16), Mem::at(BLK, 4), Conv::U8, K(0)))
            .i(InsnV::vloadunpackhd_conv(Zmm(16), Mem::at(BLK, 68), Conv::U8, K(0)))
            .i(InsnV::vmovaps_load(Zmm(24), Mem::at(CONSTS, C_IDX_K4_P1)))
            .i(InsnV::vpermd(Zmm(17), Zmm(24), Src::Reg(Zmm(16)), K(0)))
            .i(InsnV::vmovaps_load(Zmm(24), Mem::at(CONSTS, C_IDX_K4_P2)))
            .i(InsnV::vpermd(Zmm(18), Zmm(24), Src::Reg(Zmm(16)), K(0)))
            .i(InsnV::vpandd(Zmm(19), Zmm(17), constant(C_U_63), K(0)))
            .i(InsnV::vpandd(Zmm(20), Zmm(17), constant(C_U_15), K(0)))
            .i(InsnV::vpsrld(Zmm(21), Src::Reg(Zmm(17)), 4, K(0)))
            .i(InsnV::vpandd(Zmm(22), Zmm(18), constant(C_U_C0), K(0)))
            .i(InsnV::vpsrld(Zmm(22), Src::Reg(Zmm(22)), 2, K(0)))
            .i(InsnV::vpord(Zmm(20), Zmm(20), Src::Reg(Zmm(22)), K(0)))
            .i(InsnV::vpord(Zmm(21), Zmm(21), Src::Reg(Zmm(22)), K(0)))
            .clear(23)
            .kmask(240)
            .i(InsnV::vpord(Zmm(19), Zmm(20), Src::Reg(Zmm(23)), K(1)))
            .kmask(61440)
            .i(InsnV::vpord(Zmm(19), Zmm(21), Src::Reg(Zmm(23)), K(1)))
            .i(InsnV::vcvtfxpntdq2ps(Zmm(19), Src::Reg(Zmm(19)), K(0)))
            .bytes_unaligned(25, 0, Conv::F16)
            .i(InsnV::vmovaps_load(Zmm(24), Mem::at(CONSTS, C_IDX_D_DMIN)))
            .i(InsnV::vpermd(Zmm(26), Zmm(24), Src::Reg(Zmm(25)), K(0)))
            .i(InsnV::vmulps(Zmm(19), Zmm(19), Src::Reg(Zmm(26)), K(0)))
            .store_expanded(19)
            .expanded(19, C_IDX_EXPAND_HI, TAB_MN)
    }
}

impl Asm {
    /// Q4_K and Q5_K: twelve bytes at `blk + 4` hold eight 6-bit scales and
    /// eight 6-bit minimums: for j < 4 `sc = q[j] & 63`, `m = q[j+4] & 63`;
    /// for j >= 4 `sc = (q[j+4] & 15) | (q[j-4] >> 6) << 4`,
    /// `m = (q[j+4] >> 4) | (q[j] >> 6) << 4`. Lanes 0 to 7 become the scales,
    /// 8 to 15 the minimums: two permutes pick the main byte and the
    /// high-bits byte of every lane, the two forms are computed for all lanes
    /// and the right one kept by mask. Then times the block's `d` and `dmin`
    /// (halfs at `blk + 0` and `+ 2`), expanded to the sixteen vectors.
    fn prep_k4(&mut self)
        ensures
            final(self)@ == old(self)@.prep_k4(),
    {
        reveal(Listing::prep_k4);
        self.i(&conv::vloadunpackld_conv(Zmm(16), Mem::new(BLK, 4), Conv::U8, K(0)));
        self.i(&conv::vloadunpackhd_conv(Zmm(16), Mem::new(BLK, 68), Conv::U8, K(0)));
        self.i(&plain::vmovaps_load(Zmm(24), Mem::new(CONSTS, C_IDX_K4_P1)));
        self.i(&conv::vpermd(Zmm(17), Zmm(24), Src::Reg(Zmm(16)), K(0)));
        self.i(&plain::vmovaps_load(Zmm(24), Mem::new(CONSTS, C_IDX_K4_P2)));
        self.i(&conv::vpermd(Zmm(18), Zmm(24), Src::Reg(Zmm(16)), K(0)));
        self.i(&plain::vpandd(Zmm(19), Zmm(17), constant(C_U_63), K(0)));
        self.i(&plain::vpandd(Zmm(20), Zmm(17), constant(C_U_15), K(0)));
        self.i(&plain::vpsrld(Zmm(21), Src::Reg(Zmm(17)), 4, K(0)));
        self.i(&plain::vpandd(Zmm(22), Zmm(18), constant(C_U_C0), K(0)));
        self.i(&plain::vpsrld(Zmm(22), Src::Reg(Zmm(22)), 2, K(0)));
        self.i(&plain::vpord(Zmm(20), Zmm(20), Src::Reg(Zmm(22)), K(0)));
        self.i(&plain::vpord(Zmm(21), Zmm(21), Src::Reg(Zmm(22)), K(0)));
        self.clear(23);
        self.kmask(240);
        self.i(&plain::vpord(Zmm(19), Zmm(20), Src::Reg(Zmm(23)), K(1)));
        self.kmask(61440);
        self.i(&plain::vpord(Zmm(19), Zmm(21), Src::Reg(Zmm(23)), K(1)));
        self.i(&conv::vcvtfxpntdq2ps(Zmm(19), Src::Reg(Zmm(19)), K(0)));
        self.bytes_unaligned(25, 0, Conv::F16);
        self.i(&plain::vmovaps_load(Zmm(24), Mem::new(CONSTS, C_IDX_D_DMIN)));
        self.i(&conv::vpermd(Zmm(26), Zmm(24), Src::Reg(Zmm(25)), K(0)));
        self.i(&plain::vmulps(Zmm(19), Zmm(19), Src::Reg(Zmm(26)), K(0)));
        self.store_expanded(19);
        self.expanded(19, C_IDX_EXPAND_HI, TAB_MN);
    }
}

impl Listing {
    /// Q6_K: sixteen signed scales at `blk + 192`, one per vector, times `d`
    /// (a half at `blk + 208`); the minuend is 32 times the scale.
    #[verifier::opaque]
    pub open spec fn prep_q6k(self) -> Listing {
        self
            .i(InsnV::vloadunpackld_conv(Zmm(16), Mem::at(BLK, 192), Conv::S8, K(0)))
            .i(InsnV::vloadunpackhd_conv(Zmm(16), Mem::at(BLK, 256), Conv::S8, K(0)))
            .i(InsnV::vcvtfxpntdq2ps(Zmm(16), Src::Reg(Zmm(16)), K(0)))
            .bytes_unaligned(17, 208, Conv::F16)
            .i(InsnV::vmovaps_load(Zmm(18), Mem::at(CONSTS, C_IDX_ZERO)))
            .i(InsnV::vpermd(Zmm(19), Zmm(18), Src::Reg(Zmm(17)), K(0)))
            .i(InsnV::vmulps(Zmm(16), Zmm(16), Src::Reg(Zmm(19)), K(0)))
            .i(InsnV::vmovaps_store(Mem::at(TAB, TAB_SC), Zmm(16)))
            .i(InsnV::vmulps(Zmm(20), Zmm(16), constant(C_F32_32), K(0)))
            .i(InsnV::vmovaps_store(Mem::at(TAB, TAB_MN), Zmm(20)))
    }
}

impl Asm {
    /// Q6_K: sixteen signed scales at `blk + 192`, one per vector, times `d`
    /// (a half at `blk + 208`); the minuend is 32 times the scale.
    fn prep_q6k(&mut self)
        ensures
            final(self)@ == old(self)@.prep_q6k(),
    {
        reveal(Listing::prep_q6k);
        self.i(&conv::vloadunpackld_conv(Zmm(16), Mem::new(BLK, 192), Conv::S8, K(0)));
        self.i(&conv::vloadunpackhd_conv(Zmm(16), Mem::new(BLK, 256), Conv::S8, K(0)));
        self.i(&conv::vcvtfxpntdq2ps(Zmm(16), Src::Reg(Zmm(16)), K(0)));
        self.bytes_unaligned(17, 208, Conv::F16);
        self.i(&plain::vmovaps_load(Zmm(18), Mem::new(CONSTS, C_IDX_ZERO)));
        self.i(&conv::vpermd(Zmm(19), Zmm(18), Src::Reg(Zmm(17)), K(0)));
        self.i(&plain::vmulps(Zmm(16), Zmm(16), Src::Reg(Zmm(19)), K(0)));
        self.i(&plain::vmovaps_store(Mem::new(TAB, TAB_SC), Zmm(16)));
        self.i(&plain::vmulps(Zmm(20), Zmm(16), constant(C_F32_32), K(0)));
        self.i(&plain::vmovaps_store(Mem::new(TAB, TAB_MN), Zmm(20)));
    }
}

impl Listing {
    /// Q8_0: block i's `d` is the half at `34 i`. The unpack loads are expand
    /// loads (consecutive elements from the address into the unmasked lanes),
    /// so the pair from `34 i` with lane i alone unmasked puts that half in
    /// lane i.
    #[verifier::opaque]
    pub open spec fn prep_q8_0(self) -> Listing {
        self
            .clear(16)
            .kmask(1)
            .i(InsnV::vloadunpacklps_conv(Zmm(16), Mem::at(BLK, 0), Conv::F16, K(1)))
            .i(InsnV::vloadunpackhps_conv(Zmm(16), Mem::at(BLK, 64), Conv::F16, K(1)))
            .kmask(2)
            .i(InsnV::vloadunpacklps_conv(Zmm(16), Mem::at(BLK, 34), Conv::F16, K(1)))
            .i(InsnV::vloadunpackhps_conv(Zmm(16), Mem::at(BLK, 98), Conv::F16, K(1)))
            .kmask(4)
            .i(InsnV::vloadunpacklps_conv(Zmm(16), Mem::at(BLK, 68), Conv::F16, K(1)))
            .i(InsnV::vloadunpackhps_conv(Zmm(16), Mem::at(BLK, 132), Conv::F16, K(1)))
            .kmask(8)
            .i(InsnV::vloadunpacklps_conv(Zmm(16), Mem::at(BLK, 102), Conv::F16, K(1)))
            .i(InsnV::vloadunpackhps_conv(Zmm(16), Mem::at(BLK, 166), Conv::F16, K(1)))
            .kmask(16)
            .i(InsnV::vloadunpacklps_conv(Zmm(16), Mem::at(BLK, 136), Conv::F16, K(1)))
            .i(InsnV::vloadunpackhps_conv(Zmm(16), Mem::at(BLK, 200), Conv::F16, K(1)))
            .kmask(32)
            .i(InsnV::vloadunpacklps_conv(Zmm(16), Mem::at(BLK, 170), Conv::F16, K(1)))
            .i(InsnV::vloadunpackhps_conv(Zmm(16), Mem::at(BLK, 234), Conv::F16, K(1)))
            .kmask(64)
            .i(InsnV::vloadunpacklps_conv(Zmm(16), Mem::at(BLK, 204), Conv::F16, K(1)))
            .i(InsnV::vloadunpackhps_conv(Zmm(16), Mem::at(BLK, 268), Conv::F16, K(1)))
            .kmask(128)
            .i(InsnV::vloadunpacklps_conv(Zmm(16), Mem::at(BLK, 238), Conv::F16, K(1)))
            .i(InsnV::vloadunpackhps_conv(Zmm(16), Mem::at(BLK, 302), Conv::F16, K(1)))
            .store_expanded(16)
    }
}

impl Asm {
    /// Q8_0: block i's `d` is the half at `34 i`. The unpack loads are expand
    /// loads (consecutive elements from the address into the unmasked lanes),
    /// so the pair from `34 i` with lane i alone unmasked puts that half in
    /// lane i.
    fn prep_q8_0(&mut self)
        ensures
            final(self)@ == old(self)@.prep_q8_0(),
    {
        reveal(Listing::prep_q8_0);
        self.clear(16);
        self.kmask(1);
        self.i(&conv::vloadunpacklps_conv(Zmm(16), Mem::new(BLK, 0), Conv::F16, K(1)));
        self.i(&conv::vloadunpackhps_conv(Zmm(16), Mem::new(BLK, 64), Conv::F16, K(1)));
        self.kmask(2);
        self.i(&conv::vloadunpacklps_conv(Zmm(16), Mem::new(BLK, 34), Conv::F16, K(1)));
        self.i(&conv::vloadunpackhps_conv(Zmm(16), Mem::new(BLK, 98), Conv::F16, K(1)));
        self.kmask(4);
        self.i(&conv::vloadunpacklps_conv(Zmm(16), Mem::new(BLK, 68), Conv::F16, K(1)));
        self.i(&conv::vloadunpackhps_conv(Zmm(16), Mem::new(BLK, 132), Conv::F16, K(1)));
        self.kmask(8);
        self.i(&conv::vloadunpacklps_conv(Zmm(16), Mem::new(BLK, 102), Conv::F16, K(1)));
        self.i(&conv::vloadunpackhps_conv(Zmm(16), Mem::new(BLK, 166), Conv::F16, K(1)));
        self.kmask(16);
        self.i(&conv::vloadunpacklps_conv(Zmm(16), Mem::new(BLK, 136), Conv::F16, K(1)));
        self.i(&conv::vloadunpackhps_conv(Zmm(16), Mem::new(BLK, 200), Conv::F16, K(1)));
        self.kmask(32);
        self.i(&conv::vloadunpacklps_conv(Zmm(16), Mem::new(BLK, 170), Conv::F16, K(1)));
        self.i(&conv::vloadunpackhps_conv(Zmm(16), Mem::new(BLK, 234), Conv::F16, K(1)));
        self.kmask(64);
        self.i(&conv::vloadunpacklps_conv(Zmm(16), Mem::new(BLK, 204), Conv::F16, K(1)));
        self.i(&conv::vloadunpackhps_conv(Zmm(16), Mem::new(BLK, 268), Conv::F16, K(1)));
        self.kmask(128);
        self.i(&conv::vloadunpacklps_conv(Zmm(16), Mem::new(BLK, 238), Conv::F16, K(1)));
        self.i(&conv::vloadunpackhps_conv(Zmm(16), Mem::new(BLK, 302), Conv::F16, K(1)));
        self.store_expanded(16);
    }
}

impl Listing {
    /// IQ4_XS: `scales_h` (u16 at 2) and `scales_l` (4 bytes at 4) hold eight
    /// 6-bit scales: `ls = ((sl[ib/2] >> 4 (ib % 2)) & 15) | ((sh >> 2 ib) & 3) << 4`,
    /// the scale `d * (ls - 32)`.
    #[verifier::opaque]
    pub open spec fn prep_iq4xs(self) -> Listing {
        self
            .i(InsnV::vloadunpackld_conv(Zmm(16), Mem::at(BLK, 2), Conv::U8, K(0)))
            .i(InsnV::vloadunpackhd_conv(Zmm(16), Mem::at(BLK, 66), Conv::U8, K(0)))
            .i(InsnV::vmovaps_load(Zmm(17), Mem::at(CONSTS, C_IDX_SL)))
            .i(InsnV::vpermd(Zmm(18), Zmm(17), Src::Reg(Zmm(16)), K(0)))
            .i(InsnV::vpsrlvd(Zmm(19), Zmm(18), Src::Mem(Mem::at(CONSTS, C_SHIFT_L)), K(0)))
            .i(InsnV::vpandd(Zmm(19), Zmm(19), constant(C_U_15), K(0)))
            .i(InsnV::vmovaps_load(Zmm(17), Mem::at(CONSTS, C_IDX_ZERO)))
            .i(InsnV::vpermd(Zmm(20), Zmm(17), Src::Reg(Zmm(16)), K(0)))
            .i(InsnV::vmovaps_load(Zmm(17), Mem::at(CONSTS, C_IDX_ONE)))
            .i(InsnV::vpermd(Zmm(21), Zmm(17), Src::Reg(Zmm(16)), K(0)))
            .i(InsnV::vpslld(Zmm(21), Src::Reg(Zmm(21)), 8, K(0)))
            .i(InsnV::vpord(Zmm(20), Zmm(20), Src::Reg(Zmm(21)), K(0)))
            .i(InsnV::vpsrlvd(Zmm(22), Zmm(20), Src::Mem(Mem::at(CONSTS, C_SHIFT_H)), K(0)))
            .i(InsnV::vpandd(Zmm(22), Zmm(22), constant(C_U_3), K(0)))
            .i(InsnV::vpslld(Zmm(22), Src::Reg(Zmm(22)), 4, K(0)))
            .i(InsnV::vpord(Zmm(19), Zmm(19), Src::Reg(Zmm(22)), K(0)))
            .i(InsnV::vpsubd(Zmm(19), Zmm(19), constant(C_U_32), K(0)))
            .i(InsnV::vcvtfxpntdq2ps(Zmm(19), Src::Reg(Zmm(19)), K(0)))
            .bytes_unaligned(23, 0, Conv::F16)
            .i(InsnV::vmovaps_load(Zmm(17), Mem::at(CONSTS, C_IDX_ZERO)))
            .i(InsnV::vpermd(Zmm(24), Zmm(17), Src::Reg(Zmm(23)), K(0)))
            .i(InsnV::vmulps(Zmm(19), Zmm(19), Src::Reg(Zmm(24)), K(0)))
            .store_expanded(19)
    }
}

impl Asm {
    /// IQ4_XS: `scales_h` (u16 at 2) and `scales_l` (4 bytes at 4) hold eight
    /// 6-bit scales: `ls = ((sl[ib/2] >> 4 (ib % 2)) & 15) | ((sh >> 2 ib) & 3) << 4`,
    /// the scale `d * (ls - 32)`.
    fn prep_iq4xs(&mut self)
        ensures
            final(self)@ == old(self)@.prep_iq4xs(),
    {
        reveal(Listing::prep_iq4xs);
        self.i(&conv::vloadunpackld_conv(Zmm(16), Mem::new(BLK, 2), Conv::U8, K(0)));
        self.i(&conv::vloadunpackhd_conv(Zmm(16), Mem::new(BLK, 66), Conv::U8, K(0)));
        self.i(&plain::vmovaps_load(Zmm(17), Mem::new(CONSTS, C_IDX_SL)));
        self.i(&conv::vpermd(Zmm(18), Zmm(17), Src::Reg(Zmm(16)), K(0)));
        self.i(&plain::vpsrlvd(Zmm(19), Zmm(18), Src::Mem(Mem::new(CONSTS, C_SHIFT_L)), K(0)));
        self.i(&plain::vpandd(Zmm(19), Zmm(19), constant(C_U_15), K(0)));
        self.i(&plain::vmovaps_load(Zmm(17), Mem::new(CONSTS, C_IDX_ZERO)));
        self.i(&conv::vpermd(Zmm(20), Zmm(17), Src::Reg(Zmm(16)), K(0)));
        self.i(&plain::vmovaps_load(Zmm(17), Mem::new(CONSTS, C_IDX_ONE)));
        self.i(&conv::vpermd(Zmm(21), Zmm(17), Src::Reg(Zmm(16)), K(0)));
        self.i(&plain::vpslld(Zmm(21), Src::Reg(Zmm(21)), 8, K(0)));
        self.i(&plain::vpord(Zmm(20), Zmm(20), Src::Reg(Zmm(21)), K(0)));
        self.i(&plain::vpsrlvd(Zmm(22), Zmm(20), Src::Mem(Mem::new(CONSTS, C_SHIFT_H)), K(0)));
        self.i(&plain::vpandd(Zmm(22), Zmm(22), constant(C_U_3), K(0)));
        self.i(&plain::vpslld(Zmm(22), Src::Reg(Zmm(22)), 4, K(0)));
        self.i(&plain::vpord(Zmm(19), Zmm(19), Src::Reg(Zmm(22)), K(0)));
        self.i(&plain::vpsubd(Zmm(19), Zmm(19), constant(C_U_32), K(0)));
        self.i(&conv::vcvtfxpntdq2ps(Zmm(19), Src::Reg(Zmm(19)), K(0)));
        self.bytes_unaligned(23, 0, Conv::F16);
        self.i(&plain::vmovaps_load(Zmm(17), Mem::new(CONSTS, C_IDX_ZERO)));
        self.i(&conv::vpermd(Zmm(24), Zmm(17), Src::Reg(Zmm(23)), K(0)));
        self.i(&plain::vmulps(Zmm(19), Zmm(19), Src::Reg(Zmm(24)), K(0)));
        self.store_expanded(19);
    }
}

impl Listing {
    /// Half of a Q4_K superblock: two groups, eight vectors.
    #[verifier::opaque]
    pub open spec fn q4k_half(self, half: i32, t: u8, x: Act) -> Listing {
        self
            .bytes_aligned(8, (16 + 64 * half + 0) as i32, Conv::U8)
            .bytes_aligned(9, (16 + 64 * half + 16) as i32, Conv::U8)
            .bytes_aligned(10, (16 + 64 * half + 32) as i32, Conv::U8)
            .bytes_aligned(11, (16 + 64 * half + 48) as i32, Conv::U8)
            .split_nibbles(spec_pairs([8, 9, 10, 11], [12, 13, 14, 15]))
            .dot(t, spec_eight([8, 9, 12, 13, 10, 11, 14, 15], half), true, x)
    }
}

impl Asm {
    /// Half of a Q4_K superblock: two groups, eight vectors.
    fn q4k_half(&mut self, half: i32, t: u8, x: Act)
        requires
            half == 0 || half == 1,
            t <= 8,
        ensures
            final(self)@ == old(self)@.q4k_half(half, t, x),
    {
        reveal(Listing::q4k_half);
        self.bytes_aligned(8, 16 + 64 * half + 0, Conv::U8);
        self.bytes_aligned(9, 16 + 64 * half + 16, Conv::U8);
        self.bytes_aligned(10, 16 + 64 * half + 32, Conv::U8);
        self.bytes_aligned(11, 16 + 64 * half + 48, Conv::U8);
        let nibbles = pairs([8, 9, 10, 11], [12, 13, 14, 15]);
        self.split_nibbles(&nibbles);
        let batch = eight([8, 9, 12, 13, 10, 11, 14, 15], half);
        self.dot(t, &batch, true, x);
    }
}

impl Listing {
    /// Half of a Q5_K superblock: group g's low nibbles take bit 2g of `qh`,
    /// its high nibbles bit 2g+1.
    #[verifier::opaque]
    pub open spec fn q5k_half(self, half: i32, t: u8, x: Act) -> Listing {
        self
            .bytes_aligned(8, (48 + 64 * half + 0) as i32, Conv::U8)
            .bytes_aligned(9, (48 + 64 * half + 16) as i32, Conv::U8)
            .bytes_aligned(28, (48 + 64 * half + 32) as i32, Conv::U8)
            .bytes_aligned(29, (48 + 64 * half + 48) as i32, Conv::U8)
            .split_nibbles(spec_pairs([8, 9, 28, 29], [10, 11, 30, 31]))
            .all(add_high_bits(spec_pairs([8, 9, 10, 11, 28, 29, 30, 31], spec_bit_regs(half))))
            .dot(t, spec_eight([8, 9, 10, 11, 28, 29, 30, 31], half), true, x)
    }
}

impl Asm {
    /// Half of a Q5_K superblock: group g's low nibbles take bit 2g of `qh`,
    /// its high nibbles bit 2g+1.
    fn q5k_half(&mut self, half: i32, t: u8, x: Act)
        requires
            half == 0 || half == 1,
            t <= 8,
        ensures
            final(self)@ == old(self)@.q5k_half(half, t, x),
    {
        reveal(Listing::q5k_half);
        self.bytes_aligned(8, 48 + 64 * half + 0, Conv::U8);
        self.bytes_aligned(9, 48 + 64 * half + 16, Conv::U8);
        self.bytes_aligned(28, 48 + 64 * half + 32, Conv::U8);
        self.bytes_aligned(29, 48 + 64 * half + 48, Conv::U8);
        let nibbles = pairs([8, 9, 28, 29], [10, 11, 30, 31]);
        self.split_nibbles(&nibbles);
        let bits = bit_regs(half);
        let high = pairs([8, 9, 10, 11, 28, 29, 30, 31], bits);
        self.add_high_bits(&high);
        let batch = eight([8, 9, 10, 11, 28, 29, 30, 31], half);
        self.dot(t, &batch, true, x);
    }
}

impl Listing {
    /// Half of a Q6_K superblock: the low nibbles of `ql` take fields 0 and 1
    /// of `qh`, the high ones fields 2 and 3.
    #[verifier::opaque]
    pub open spec fn q6k_half(self, half: i32, t: u8, x: Act) -> Listing {
        self
            .bytes_unaligned(8, (64 * half + 0) as i32, Conv::U8)
            .bytes_unaligned(9, (64 * half + 16) as i32, Conv::U8)
            .bytes_unaligned(10, (64 * half + 32) as i32, Conv::U8)
            .bytes_unaligned(11, (64 * half + 48) as i32, Conv::U8)
            .bytes_unaligned(12, (128 + 32 * half) as i32, Conv::U8)
            .bytes_unaligned(13, (144 + 32 * half) as i32, Conv::U8)
            .fields_of(seq![(Zmm(12), 14u8), (Zmm(13), 17u8)], 2)
            .split_nibbles(spec_pairs([8, 9, 10, 11], [20, 21, 22, 23]))
            .all(add_high_bits(spec_pairs([8, 9, 10, 11, 20, 21, 22, 23], [12, 13, 14, 17, 15, 18, 16, 19])))
            .dot(t, spec_eight([8, 9, 10, 11, 20, 21, 22, 23], half), true, x)
    }
}

impl Asm {
    /// Half of a Q6_K superblock: the low nibbles of `ql` take fields 0 and 1
    /// of `qh`, the high ones fields 2 and 3.
    fn q6k_half(&mut self, half: i32, t: u8, x: Act)
        requires
            half == 0 || half == 1,
            t <= 8,
        ensures
            final(self)@ == old(self)@.q6k_half(half, t, x),
    {
        reveal(Listing::q6k_half);
        self.bytes_unaligned(8, 64 * half + 0, Conv::U8);
        self.bytes_unaligned(9, 64 * half + 16, Conv::U8);
        self.bytes_unaligned(10, 64 * half + 32, Conv::U8);
        self.bytes_unaligned(11, 64 * half + 48, Conv::U8);
        self.bytes_unaligned(12, 128 + 32 * half, Conv::U8);
        self.bytes_unaligned(13, 144 + 32 * half, Conv::U8);
        let tops: Vec<(Zmm, u8)> = vec![(Zmm(12), 14), (Zmm(13), 17)];
        assert(tops@ =~= seq![(Zmm(12), 14u8), (Zmm(13), 17u8)]);
        self.fields_of(&tops, 2);
        let nibbles = pairs([8, 9, 10, 11], [20, 21, 22, 23]);
        self.split_nibbles(&nibbles);
        let high = pairs([8, 9, 10, 11, 20, 21, 22, 23], [12, 13, 14, 17, 15, 18, 16, 19]);
        self.add_high_bits(&high);
        let batch = eight([8, 9, 10, 11, 20, 21, 22, 23], half);
        self.dot(t, &batch, true, x);
    }
}

impl Listing {
    /// Four blocks of Q8_0, eight vectors.
    #[verifier::opaque]
    pub open spec fn q8_0_half(self, half: i32, t: u8, x: Act) -> Listing {
        self
            .bytes_unaligned(8, (34 * (4 * half + 0) + 2) as i32, Conv::S8)
            .bytes_unaligned(9, (34 * (4 * half + 0) + 18) as i32, Conv::S8)
            .bytes_unaligned(10, (34 * (4 * half + 1) + 2) as i32, Conv::S8)
            .bytes_unaligned(11, (34 * (4 * half + 1) + 18) as i32, Conv::S8)
            .bytes_unaligned(12, (34 * (4 * half + 2) + 2) as i32, Conv::S8)
            .bytes_unaligned(13, (34 * (4 * half + 2) + 18) as i32, Conv::S8)
            .bytes_unaligned(14, (34 * (4 * half + 3) + 2) as i32, Conv::S8)
            .bytes_unaligned(15, (34 * (4 * half + 3) + 18) as i32, Conv::S8)
            .dot(t, spec_eight([8, 9, 10, 11, 12, 13, 14, 15], half), false, x)
    }
}

impl Asm {
    /// Four blocks of Q8_0, eight vectors.
    fn q8_0_half(&mut self, half: i32, t: u8, x: Act)
        requires
            half == 0 || half == 1,
            t <= 8,
        ensures
            final(self)@ == old(self)@.q8_0_half(half, t, x),
    {
        reveal(Listing::q8_0_half);
        self.bytes_unaligned(8, 34 * (4 * half + 0) + 2, Conv::S8);
        self.bytes_unaligned(9, 34 * (4 * half + 0) + 18, Conv::S8);
        self.bytes_unaligned(10, 34 * (4 * half + 1) + 2, Conv::S8);
        self.bytes_unaligned(11, 34 * (4 * half + 1) + 18, Conv::S8);
        self.bytes_unaligned(12, 34 * (4 * half + 2) + 2, Conv::S8);
        self.bytes_unaligned(13, 34 * (4 * half + 2) + 18, Conv::S8);
        self.bytes_unaligned(14, 34 * (4 * half + 3) + 2, Conv::S8);
        self.bytes_unaligned(15, 34 * (4 * half + 3) + 18, Conv::S8);
        let batch = eight([8, 9, 10, 11, 12, 13, 14, 15], half);
        self.dot(t, &batch, false, x);
    }
}

impl Listing {
    /// The values of the nibbles in zmm8 to zmm15, into zmm16 to zmm23.
    #[verifier::opaque]
    pub open spec fn iq4xs_values(self) -> Listing {
        self
            .i(InsnV::vcvtfxpntps2dq(Zmm(8), Src::Reg(Zmm(8)), Round::Zero, K(0)))
            .i(InsnV::vcvtfxpntps2dq(Zmm(12), Src::Reg(Zmm(12)), Round::Zero, K(0)))
            .i(InsnV::vcvtfxpntps2dq(Zmm(9), Src::Reg(Zmm(9)), Round::Zero, K(0)))
            .i(InsnV::vcvtfxpntps2dq(Zmm(13), Src::Reg(Zmm(13)), Round::Zero, K(0)))
            .i(InsnV::vcvtfxpntps2dq(Zmm(10), Src::Reg(Zmm(10)), Round::Zero, K(0)))
            .i(InsnV::vcvtfxpntps2dq(Zmm(14), Src::Reg(Zmm(14)), Round::Zero, K(0)))
            .i(InsnV::vcvtfxpntps2dq(Zmm(11), Src::Reg(Zmm(11)), Round::Zero, K(0)))
            .i(InsnV::vcvtfxpntps2dq(Zmm(15), Src::Reg(Zmm(15)), Round::Zero, K(0)))
            .i(InsnV::vpermd(Zmm(16), Zmm(8), Src::Mem(Mem::at(CONSTS, C_LUT)), K(0)))
            .i(InsnV::vpermd(Zmm(17), Zmm(12), Src::Mem(Mem::at(CONSTS, C_LUT)), K(0)))
            .i(InsnV::vpermd(Zmm(18), Zmm(9), Src::Mem(Mem::at(CONSTS, C_LUT)), K(0)))
            .i(InsnV::vpermd(Zmm(19), Zmm(13), Src::Mem(Mem::at(CONSTS, C_LUT)), K(0)))
            .i(InsnV::vpermd(Zmm(20), Zmm(10), Src::Mem(Mem::at(CONSTS, C_LUT)), K(0)))
            .i(InsnV::vpermd(Zmm(21), Zmm(14), Src::Mem(Mem::at(CONSTS, C_LUT)), K(0)))
            .i(InsnV::vpermd(Zmm(22), Zmm(11), Src::Mem(Mem::at(CONSTS, C_LUT)), K(0)))
            .i(InsnV::vpermd(Zmm(23), Zmm(15), Src::Mem(Mem::at(CONSTS, C_LUT)), K(0)))
    }
}

impl Asm {
    /// The values of the nibbles in zmm8 to zmm15, into zmm16 to zmm23.
    fn iq4xs_values(&mut self)
        ensures
            final(self)@ == old(self)@.iq4xs_values(),
    {
        reveal(Listing::iq4xs_values);
        self.i(&conv::vcvtfxpntps2dq(Zmm(8), Src::Reg(Zmm(8)), Round::Zero, K(0)));
        self.i(&conv::vcvtfxpntps2dq(Zmm(12), Src::Reg(Zmm(12)), Round::Zero, K(0)));
        self.i(&conv::vcvtfxpntps2dq(Zmm(9), Src::Reg(Zmm(9)), Round::Zero, K(0)));
        self.i(&conv::vcvtfxpntps2dq(Zmm(13), Src::Reg(Zmm(13)), Round::Zero, K(0)));
        self.i(&conv::vcvtfxpntps2dq(Zmm(10), Src::Reg(Zmm(10)), Round::Zero, K(0)));
        self.i(&conv::vcvtfxpntps2dq(Zmm(14), Src::Reg(Zmm(14)), Round::Zero, K(0)));
        self.i(&conv::vcvtfxpntps2dq(Zmm(11), Src::Reg(Zmm(11)), Round::Zero, K(0)));
        self.i(&conv::vcvtfxpntps2dq(Zmm(15), Src::Reg(Zmm(15)), Round::Zero, K(0)));
        self.i(&conv::vpermd(Zmm(16), Zmm(8), Src::Mem(Mem::new(CONSTS, C_LUT)), K(0)));
        self.i(&conv::vpermd(Zmm(17), Zmm(12), Src::Mem(Mem::new(CONSTS, C_LUT)), K(0)));
        self.i(&conv::vpermd(Zmm(18), Zmm(9), Src::Mem(Mem::new(CONSTS, C_LUT)), K(0)));
        self.i(&conv::vpermd(Zmm(19), Zmm(13), Src::Mem(Mem::new(CONSTS, C_LUT)), K(0)));
        self.i(&conv::vpermd(Zmm(20), Zmm(10), Src::Mem(Mem::new(CONSTS, C_LUT)), K(0)));
        self.i(&conv::vpermd(Zmm(21), Zmm(14), Src::Mem(Mem::new(CONSTS, C_LUT)), K(0)));
        self.i(&conv::vpermd(Zmm(22), Zmm(11), Src::Mem(Mem::new(CONSTS, C_LUT)), K(0)));
        self.i(&conv::vpermd(Zmm(23), Zmm(15), Src::Mem(Mem::new(CONSTS, C_LUT)), K(0)));
    }
}

impl Listing {
    /// Half of an IQ4_XS superblock: each nibble indexes the value table.
    #[verifier::opaque]
    pub open spec fn iq4xs_half(self, half: i32, t: u8, x: Act) -> Listing {
        self
            .bytes_unaligned(8, (8 + 64 * half + 0) as i32, Conv::U8)
            .bytes_unaligned(9, (8 + 64 * half + 16) as i32, Conv::U8)
            .bytes_unaligned(10, (8 + 64 * half + 32) as i32, Conv::U8)
            .bytes_unaligned(11, (8 + 64 * half + 48) as i32, Conv::U8)
            .split_nibbles(spec_pairs([8, 9, 10, 11], [12, 13, 14, 15]))
            .iq4xs_values()
            .dot(t, spec_eight([16, 17, 18, 19, 20, 21, 22, 23], half), false, x)
    }
}

impl Asm {
    /// Half of an IQ4_XS superblock: each nibble indexes the value table.
    fn iq4xs_half(&mut self, half: i32, t: u8, x: Act)
        requires
            half == 0 || half == 1,
            t <= 8,
        ensures
            final(self)@ == old(self)@.iq4xs_half(half, t, x),
    {
        reveal(Listing::iq4xs_half);
        self.bytes_unaligned(8, 8 + 64 * half + 0, Conv::U8);
        self.bytes_unaligned(9, 8 + 64 * half + 16, Conv::U8);
        self.bytes_unaligned(10, 8 + 64 * half + 32, Conv::U8);
        self.bytes_unaligned(11, 8 + 64 * half + 48, Conv::U8);
        let nibbles = pairs([8, 9, 10, 11], [12, 13, 14, 15]);
        self.split_nibbles(&nibbles);
        self.iq4xs_values();
        let batch = eight([16, 17, 18, 19, 20, 21, 22, 23], half);
        self.dot(t, &batch, false, x);
    }
}

impl Listing {
    /// Q4_K: `qs` at 16 (128 bytes), eight sub-blocks of 32; the low nibbles
    /// of bytes 32g..32g+32 are sub-block 2g, the high ones sub-block 2g+1.
    /// The block is 144 bytes, so `qs` is 16-byte aligned when the row is.
    #[verifier::opaque]
    pub open spec fn q4k(self, t: u8, x: Act) -> Listing {
        self
            .prologue(kernel_name_of("phi_q4k_"@, t, x), t, "one Q4_K superblock"@, 144, Prep::K4)
            .q4k_half(0, t, x)
            .q4k_half(1, t, x)
            .epilogue(kernel_name_of("phi_q4k_"@, t, x), t)
    }
}

impl Asm {
    /// Q4_K: `qs` at 16 (128 bytes), eight sub-blocks of 32; the low nibbles
    /// of bytes 32g..32g+32 are sub-block 2g, the high ones sub-block 2g+1.
    /// The block is 144 bytes, so `qs` is 16-byte aligned when the row is.
    fn q4k(&mut self, t: u8, x: Act)
        requires
            t <= 8,
        ensures
            final(self)@ == old(self)@.q4k(t, x),
    {
        reveal(Listing::q4k);
        let name = kernel_name("phi_q4k_", t, x);
        self.prologue(name.as_str(), t, "one Q4_K superblock", 144, Prep::K4);
        self.q4k_half(0, t, x);
        self.q4k_half(1, t, x);
        self.epilogue(name.as_str(), t);
    }
}

impl Listing {
    /// Q5_K: `qh` at 16 (32 bytes), `qs` at 48 (128 bytes). The block is 176
    /// bytes: 16-byte aligned rows keep both arrays aligned.
    #[verifier::opaque]
    pub open spec fn q5k(self, t: u8, x: Act) -> Listing {
        self
            .prologue(kernel_name_of("phi_q5k_"@, t, x), t, "one Q5_K superblock"@, 176, Prep::K4)
            .bytes_aligned(12, (16) as i32, Conv::U8)
            .bytes_aligned(13, (32) as i32, Conv::U8)
            .fields_of(seq![(Zmm(12), 14u8), (Zmm(13), 21u8)], 1)
            .q5k_half(0, t, x)
            .q5k_half(1, t, x)
            .epilogue(kernel_name_of("phi_q5k_"@, t, x), t)
    }
}

impl Asm {
    /// Q5_K: `qh` at 16 (32 bytes), `qs` at 48 (128 bytes). The block is 176
    /// bytes: 16-byte aligned rows keep both arrays aligned.
    fn q5k(&mut self, t: u8, x: Act)
        requires
            t <= 8,
        ensures
            final(self)@ == old(self)@.q5k(t, x),
    {
        reveal(Listing::q5k);
        let name = kernel_name("phi_q5k_", t, x);
        self.prologue(name.as_str(), t, "one Q5_K superblock", 176, Prep::K4);
        self.bytes_aligned(12, 16, Conv::U8);
        self.bytes_aligned(13, 32, Conv::U8);
        let tops: Vec<(Zmm, u8)> = vec![(Zmm(12), 14), (Zmm(13), 21)];
        assert(tops@ =~= seq![(Zmm(12), 14u8), (Zmm(13), 21u8)]);
        self.fields_of(&tops, 1);
        self.q5k_half(0, t, x);
        self.q5k_half(1, t, x);
        self.epilogue(name.as_str(), t);
    }
}

impl Listing {
    /// Q6_K: `ql` at 0 (128 bytes), `qh` at 128 (64), scales at 192 (16 bytes,
    /// one per sixteen weights), `d` at 208; 210 bytes, so nothing here is
    /// aligned and every load is the unpack pair. The value is `q - 32`, which
    /// is folded into the minuend (`32 * d * scale`).
    #[verifier::opaque]
    pub open spec fn q6k(self, t: u8, x: Act) -> Listing {
        self
            .prologue(kernel_name_of("phi_q6k_"@, t, x), t, "one Q6_K superblock"@, 210, Prep::Q6K)
            .q6k_half(0, t, x)
            .q6k_half(1, t, x)
            .epilogue(kernel_name_of("phi_q6k_"@, t, x), t)
    }
}

impl Asm {
    /// Q6_K: `ql` at 0 (128 bytes), `qh` at 128 (64), scales at 192 (16 bytes,
    /// one per sixteen weights), `d` at 208; 210 bytes, so nothing here is
    /// aligned and every load is the unpack pair. The value is `q - 32`, which
    /// is folded into the minuend (`32 * d * scale`).
    fn q6k(&mut self, t: u8, x: Act)
        requires
            t <= 8,
        ensures
            final(self)@ == old(self)@.q6k(t, x),
    {
        reveal(Listing::q6k);
        let name = kernel_name("phi_q6k_", t, x);
        self.prologue(name.as_str(), t, "one Q6_K superblock", 210, Prep::Q6K);
        self.q6k_half(0, t, x);
        self.q6k_half(1, t, x);
        self.epilogue(name.as_str(), t);
    }
}

impl Listing {
    /// Q8_0: eight blocks of 34 bytes (`d` then 32 signed bytes) make the 256
    /// weights; block i's bytes are at 34 i + 2, any alignment. No minuend.
    #[verifier::opaque]
    pub open spec fn q8_0(self, t: u8, x: Act) -> Listing {
        self
            .prologue(kernel_name_of("phi_q8_0_"@, t, x), t, "eight Q8_0 blocks"@, 272, Prep::Q80)
            .q8_0_half(0, t, x)
            .q8_0_half(1, t, x)
            .epilogue(kernel_name_of("phi_q8_0_"@, t, x), t)
    }
}

impl Asm {
    /// Q8_0: eight blocks of 34 bytes (`d` then 32 signed bytes) make the 256
    /// weights; block i's bytes are at 34 i + 2, any alignment. No minuend.
    fn q8_0(&mut self, t: u8, x: Act)
        requires
            t <= 8,
        ensures
            final(self)@ == old(self)@.q8_0(t, x),
    {
        reveal(Listing::q8_0);
        let name = kernel_name("phi_q8_0_", t, x);
        self.prologue(name.as_str(), t, "eight Q8_0 blocks", 272, Prep::Q80);
        self.q8_0_half(0, t, x);
        self.q8_0_half(1, t, x);
        self.epilogue(name.as_str(), t);
    }
}

impl Listing {
    /// IQ4_XS: `d` at 0, `scales_h` at 2, `scales_l` at 4 (4 bytes), `qs` at 8
    /// (128 bytes); 136 bytes, so `qs` is only 8-byte aligned. The low nibbles
    /// of bytes 16 ib..16 ib+16 are weights 32 ib..32 ib+16, the high ones the
    /// next sixteen. No minuend.
    #[verifier::opaque]
    pub open spec fn iq4xs(self, t: u8, x: Act) -> Listing {
        self
            .prologue(kernel_name_of("phi_iq4xs_"@, t, x), t, "one IQ4_XS superblock"@, 136, Prep::Iq4xs)
            .iq4xs_half(0, t, x)
            .iq4xs_half(1, t, x)
            .epilogue(kernel_name_of("phi_iq4xs_"@, t, x), t)
    }
}

impl Asm {
    /// IQ4_XS: `d` at 0, `scales_h` at 2, `scales_l` at 4 (4 bytes), `qs` at 8
    /// (128 bytes); 136 bytes, so `qs` is only 8-byte aligned. The low nibbles
    /// of bytes 16 ib..16 ib+16 are weights 32 ib..32 ib+16, the high ones the
    /// next sixteen. No minuend.
    fn iq4xs(&mut self, t: u8, x: Act)
        requires
            t <= 8,
        ensures
            final(self)@ == old(self)@.iq4xs(t, x),
    {
        reveal(Listing::iq4xs);
        let name = kernel_name("phi_iq4xs_", t, x);
        self.prologue(name.as_str(), t, "one IQ4_XS superblock", 136, Prep::Iq4xs);
        self.iq4xs_half(0, t, x);
        self.iq4xs_half(1, t, x);
        self.epilogue(name.as_str(), t);
    }
}

impl Listing {
    /// The kernels of every format, against `t` rows.
    #[verifier::opaque]
    pub open spec fn formats(self, t: u8, x: Act) -> Listing {
        self
            .q4k(t, x)
            .q5k(t, x)
            .q6k(t, x)
            .q8_0(t, x)
            .iq4xs(t, x)
    }
}

impl Asm {
    /// The kernels of every format, against `t` rows.
    fn formats(&mut self, t: u8, x: Act)
        requires
            t <= 8,
        ensures
            final(self)@ == old(self)@.formats(t, x),
    {
        reveal(Listing::formats);
        self.q4k(t, x);
        self.q5k(t, x);
        self.q6k(t, x);
        self.q8_0(t, x);
        self.iq4xs(t, x);
    }
}

impl Listing {
    /// Every quantized kernel.
    #[verifier::opaque]
    pub open spec fn all_kernels(self) -> Listing {
        self
            .lit("# quantized kernels: rcx = the superblock's table ("@)
            .num(TAB_BYTES as int)
            .lit(" bytes: scales "@)
            .num(TAB_SC as int)
            .lit(", minuends "@)
            .num(TAB_MN as int)
            .lit("), r9 = the constants ("@)
            .num(C_BYTES as int)
            .lit(" bytes: 16, 4, 2, 2^-1..2^-8, the IQ4_XS values at "@)
            .num(C_LUT as int)
            .lit(")\n"@)
            .formats(1, Act::F32)
            .formats(4, Act::F32)
            .formats(8, Act::F32)
            .formats(1, Act::F16)
            .formats(4, Act::F16)
            .formats(8, Act::F16)
    }
}

impl Asm {
    /// Every quantized kernel.
    fn all_kernels(&mut self)
        ensures
            final(self)@ == old(self)@.all_kernels(),
    {
        reveal(Listing::all_kernels);
        self.lit("# quantized kernels: rcx = the superblock's table (");
        self.num(TAB_BYTES);
        self.lit(" bytes: scales ");
        self.num(TAB_SC);
        self.lit(", minuends ");
        self.num(TAB_MN);
        self.lit("), r9 = the constants (");
        self.num(C_BYTES);
        self.lit(" bytes: 16, 4, 2, 2^-1..2^-8, the IQ4_XS values at ");
        self.num(C_LUT);
        self.lit(")\n");
        self.formats(1, Act::F32);
        self.formats(4, Act::F32);
        self.formats(8, Act::F32);
        self.formats(1, Act::F16);
        self.formats(4, Act::F16);
        self.formats(8, Act::F16);
    }
}

/// The quantized kernels: every format, both kinds of activations, against
/// 1, 4 and 8 rows.
pub fn kernels() -> (s: String)
    ensures
        s@ == Listing::empty().all_kernels().s,
{
    let mut a = Asm::new();
    a.all_kernels();
    a.0
}

} // verus!
