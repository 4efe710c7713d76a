//! Two kernels that measure the card: what the instructions the quantized
//! kernels rely on produce, and the core's raw rates.
use crate::kernelgen::listing::{Asm, Listing};
use crate::kernelgen::machine::{Line, When};
use crate::kernelgen::quant::{C_FOUR, C_LUT, C_POW2NEG};
use crate::mvex::conv;
use crate::mvex::conv::{Cache, Round};
use crate::mvex::encode::InsnV;
use crate::mvex::plain;
use crate::mvex::reg::{Conv, Gpr, Mem, Src, Zmm, K};
use vstd::prelude::*;

verus! {

impl Listing {
    /// The prefetches first (a wrong encoding shows as a dead worker), then
    /// vectors 0 to 3 of the output: the float unpack pair `{uint8}` at +3, the
    /// int32 pair at +3 (integers), the aligned `{uint8}` load, the float pair
    /// `{sint8}` at +3.
    #[verifier::opaque]
    pub open spec fn probe_loads(self) -> Listing {
        self
            .i(InsnV::vprefetch(Mem::at(Gpr::Rdi, 128), Cache::L1))
            .i(InsnV::vprefetch(Mem::at(Gpr::Rdi, 192), Cache::L2))
            .i(InsnV::vloadunpacklps_conv(Zmm(8), Mem::at(Gpr::Rdi, 3), Conv::U8, K(0)))
            .i(InsnV::vloadunpackhps_conv(Zmm(8), Mem::at(Gpr::Rdi, 67), Conv::U8, K(0)))
            .i(InsnV::vmovaps_store(Mem::at(Gpr::Rcx, 0), Zmm(8)))
            .i(InsnV::vloadunpackld_conv(Zmm(9), Mem::at(Gpr::Rdi, 3), Conv::U8, K(0)))
            .i(InsnV::vloadunpackhd_conv(Zmm(9), Mem::at(Gpr::Rdi, 67), Conv::U8, K(0)))
            .i(InsnV::vmovaps_store(Mem::at(Gpr::Rcx, 64), Zmm(9)))
            .i(InsnV::vmovaps_load_conv(Zmm(10), Mem::at(Gpr::Rdi, 0), Conv::U8, K(0)))
            .i(InsnV::vmovaps_store(Mem::at(Gpr::Rcx, 128), Zmm(10)))
            .i(InsnV::vloadunpacklps_conv(Zmm(11), Mem::at(Gpr::Rdi, 3), Conv::S8, K(0)))
            .i(InsnV::vloadunpackhps_conv(Zmm(11), Mem::at(Gpr::Rdi, 67), Conv::S8, K(0)))
            .i(InsnV::vmovaps_store(Mem::at(Gpr::Rcx, 192), Zmm(11)))
    }
}

impl Asm {
    /// The prefetches first (a wrong encoding shows as a dead worker), then
    /// vectors 0 to 3 of the output: the float unpack pair `{uint8}` at +3, the
    /// int32 pair at +3 (integers), the aligned `{uint8}` load, the float pair
    /// `{sint8}` at +3.
    fn probe_loads(&mut self)
        ensures
            final(self)@ == old(self)@.probe_loads(),
    {
        reveal(Listing::probe_loads);
        self.i(&conv::vprefetch(Mem::new(Gpr::Rdi, 128), Cache::L1));
        self.i(&conv::vprefetch(Mem::new(Gpr::Rdi, 192), Cache::L2));
        self.i(&conv::vloadunpacklps_conv(Zmm(8), Mem::new(Gpr::Rdi, 3), Conv::U8, K(0)));
        self.i(&conv::vloadunpackhps_conv(Zmm(8), Mem::new(Gpr::Rdi, 67), Conv::U8, K(0)));
        self.i(&plain::vmovaps_store(Mem::new(Gpr::Rcx, 0), Zmm(8)));
        self.i(&conv::vloadunpackld_conv(Zmm(9), Mem::new(Gpr::Rdi, 3), Conv::U8, K(0)));
        self.i(&conv::vloadunpackhd_conv(Zmm(9), Mem::new(Gpr::Rdi, 67), Conv::U8, K(0)));
        self.i(&plain::vmovaps_store(Mem::new(Gpr::Rcx, 64), Zmm(9)));
        self.i(&conv::vmovaps_load_conv(Zmm(10), Mem::new(Gpr::Rdi, 0), Conv::U8, K(0)));
        self.i(&plain::vmovaps_store(Mem::new(Gpr::Rcx, 128), Zmm(10)));
        self.i(&conv::vloadunpacklps_conv(Zmm(11), Mem::new(Gpr::Rdi, 3), Conv::S8, K(0)));
        self.i(&conv::vloadunpackhps_conv(Zmm(11), Mem::new(Gpr::Rdi, 67), Conv::S8, K(0)));
        self.i(&plain::vmovaps_store(Mem::new(Gpr::Rcx, 192), Zmm(11)));
    }
}

impl Listing {
    /// Vectors 4 to 7 of the output: x to int32 (as raw bits), the `vpermd` of
    /// the table by those, `floor(x / 4)`, `x - 4 floor(x / 4)`.
    #[verifier::opaque]
    pub open spec fn probe_arithmetic(self) -> Listing {
        self
            .i(InsnV::vmovaps_load(Zmm(12), Mem::at(Gpr::Rsi, 0)))
            .i(InsnV::vcvtfxpntps2dq(Zmm(13), Src::Reg(Zmm(12)), Round::Zero, K(0)))
            .i(InsnV::vmovaps_store(Mem::at(Gpr::Rcx, 256), Zmm(13)))
            .i(InsnV::vpermd(Zmm(14), Zmm(13), Src::Mem(Mem::at(Gpr::Rdx, C_LUT)), K(0)))
            .i(InsnV::vmovaps_store(Mem::at(Gpr::Rcx, 320), Zmm(14)))
            .i(InsnV::vmulps(Zmm(15), Zmm(12), Src::MemConv(Mem::at(Gpr::Rdx, (C_POW2NEG + 4) as i32), Conv::Bcast1), K(0)))
            .i(InsnV::vrndfxpntps(Zmm(15), Src::Reg(Zmm(15)), Round::Down, K(0)))
            .i(InsnV::vmovaps_store(Mem::at(Gpr::Rcx, 384), Zmm(15)))
            .i(InsnV::vfnmadd231ps(Zmm(12), Zmm(15), Src::MemConv(Mem::at(Gpr::Rdx, C_FOUR), Conv::Bcast1), K(0)))
            .i(InsnV::vmovaps_store(Mem::at(Gpr::Rcx, 448), Zmm(12)))
    }
}

impl Asm {
    /// Vectors 4 to 7 of the output: x to int32 (as raw bits), the `vpermd` of
    /// the table by those, `floor(x / 4)`, `x - 4 floor(x / 4)`.
    fn probe_arithmetic(&mut self)
        ensures
            final(self)@ == old(self)@.probe_arithmetic(),
    {
        reveal(Listing::probe_arithmetic);
        self.i(&plain::vmovaps_load(Zmm(12), Mem::new(Gpr::Rsi, 0)));
        self.i(&conv::vcvtfxpntps2dq(Zmm(13), Src::Reg(Zmm(12)), Round::Zero, K(0)));
        self.i(&plain::vmovaps_store(Mem::new(Gpr::Rcx, 256), Zmm(13)));
        self.i(&conv::vpermd(Zmm(14), Zmm(13), Src::Mem(Mem::new(Gpr::Rdx, C_LUT)), K(0)));
        self.i(&plain::vmovaps_store(Mem::new(Gpr::Rcx, 320), Zmm(14)));
        self.i(&plain::vmulps(Zmm(15), Zmm(12), Src::MemConv(Mem::new(Gpr::Rdx, C_POW2NEG + 4), Conv::Bcast1), K(0)));
        self.i(&conv::vrndfxpntps(Zmm(15), Src::Reg(Zmm(15)), Round::Down, K(0)));
        self.i(&plain::vmovaps_store(Mem::new(Gpr::Rcx, 384), Zmm(15)));
        self.i(&conv::vfnmadd231ps(Zmm(12), Zmm(15), Src::MemConv(Mem::new(Gpr::Rdx, C_FOUR), Conv::Bcast1), K(0)));
        self.i(&plain::vmovaps_store(Mem::new(Gpr::Rcx, 448), Zmm(12)));
    }
}

impl Listing {
    /// The instruction probe.
    #[verifier::opaque]
    pub open spec fn phi_probe(self) -> Listing {
        self
            .lit("# phi_probe: instruction probe (quant.md)\n"@)
            .label("phi_probe"@)
            .probe_loads()
            .probe_arithmetic()
            .t("ret"@)
            .size("phi_probe"@)
    }
}

impl Asm {
    /// The instruction probe.
    fn phi_probe(&mut self)
        ensures
            final(self)@ == old(self)@.phi_probe(),
    {
        reveal(Listing::phi_probe);
        self.lit("# phi_probe: instruction probe (quant.md)\n");
        self.label("phi_probe");
        self.probe_loads();
        self.probe_arithmetic();
        self.t("ret");
        self.size("phi_probe");
    }
}

/// `phi_probe(blk, x, tab, out)`: what the instructions the quantized
/// kernels rely on produce, one 64-byte vector each into `out` (the card's
/// own answer is the only source of truth for an encoding). rdi = 256
/// bytes, rsi = 16 floats, rdx = the constants, rcx = out (8 vectors).
pub fn probe() -> (s: String)
    ensures
        s@ == Listing::empty().phi_probe().s,
{
    let mut a = Asm::new();
    a.phi_probe();
    a.0
}

/// The vector registers that are written, on the stack, below what the caller
/// has there.
#[verifier::opaque]
pub open spec fn bench_save() -> Seq<Line> {
    Seq::<Line>::empty()
        .push(Line::Copy { from: Gpr::Rsp, to: Gpr::R9 })
        .push(Line::Minus { n: 512, g: Gpr::Rsp })
        .push(Line::Align { g: Gpr::Rsp })
        .push(Line::Copy { from: Gpr::Rsp, to: Gpr::R8 })
        .push(Line::Store { m: Mem::at(Gpr::R8, 0), z: Zmm(0) })
        .push(Line::Store { m: Mem::at(Gpr::R8, 64), z: Zmm(1) })
        .push(Line::Store { m: Mem::at(Gpr::R8, 128), z: Zmm(2) })
        .push(Line::Store { m: Mem::at(Gpr::R8, 192), z: Zmm(3) })
        .push(Line::Store { m: Mem::at(Gpr::R8, 256), z: Zmm(4) })
        .push(Line::Store { m: Mem::at(Gpr::R8, 320), z: Zmm(5) })
        .push(Line::Store { m: Mem::at(Gpr::R8, 384), z: Zmm(6) })
        .push(Line::Store { m: Mem::at(Gpr::R8, 448), z: Zmm(7) })
}

/// Kind 0. A count in rdx replaces the default; not with a cmov: the card's
/// scalar core is a P54C and has none.
#[verifier::opaque]
pub open spec fn bench_issue() -> Seq<Line> {
    Seq::<Line>::empty()
        .push(Line::Copy { from: Gpr::Rdx, to: Gpr::Rax })
        .push(Line::Test { g: Gpr::Rax })
        .push(Line::Jump { when: When::NotZero, label: 8, forward: true })
        .push(Line::Put { n: 1000000, g: Gpr::Rax })
        .push(Line::Mark { label: 8, indented: true })
        .push(Line::Test { g: Gpr::Rdi })
        .push(Line::Jump { when: When::NotZero, label: 2, forward: true })
        .push(Line::Mark { label: 1, indented: true })
        .push(Line::Vector { insn: InsnV::vfmadd231ps(Zmm(0), Zmm(8), Src::Reg(Zmm(16)), K(0)), z: Zmm(0) })
        .push(Line::Vector { insn: InsnV::vfmadd231ps(Zmm(1), Zmm(9), Src::Reg(Zmm(17)), K(0)), z: Zmm(1) })
        .push(Line::Vector { insn: InsnV::vfmadd231ps(Zmm(2), Zmm(10), Src::Reg(Zmm(18)), K(0)), z: Zmm(2) })
        .push(Line::Vector { insn: InsnV::vfmadd231ps(Zmm(3), Zmm(11), Src::Reg(Zmm(19)), K(0)), z: Zmm(3) })
        .push(Line::Vector { insn: InsnV::vfmadd231ps(Zmm(4), Zmm(12), Src::Reg(Zmm(20)), K(0)), z: Zmm(4) })
        .push(Line::Vector { insn: InsnV::vfmadd231ps(Zmm(5), Zmm(13), Src::Reg(Zmm(21)), K(0)), z: Zmm(5) })
        .push(Line::Vector { insn: InsnV::vfmadd231ps(Zmm(6), Zmm(14), Src::Reg(Zmm(22)), K(0)), z: Zmm(6) })
        .push(Line::Vector { insn: InsnV::vfmadd231ps(Zmm(7), Zmm(15), Src::Reg(Zmm(23)), K(0)), z: Zmm(7) })
        .push(Line::Dec { g: Gpr::Rax })
        .push(Line::Jump { when: When::NotZero, label: 1, forward: false })
        .push(Line::Jump { when: When::Always, label: 9, forward: true })
}

/// Which walk the kind asks for.
#[verifier::opaque]
pub open spec fn bench_choice() -> Seq<Line> {
    Seq::<Line>::empty()
        .push(Line::Mark { label: 2, indented: true })
        .push(Line::Copy { from: Gpr::Rsi, to: Gpr::Rcx })
        .push(Line::Against { n: 2, g: Gpr::Rdi })
        .push(Line::Jump { when: When::Equal, label: 4, forward: true })
        .push(Line::Against { n: 3, g: Gpr::Rdi })
        .push(Line::Jump { when: When::Equal, label: 5, forward: true })
        .push(Line::Against { n: 4, g: Gpr::Rdi })
        .push(Line::Jump { when: When::Equal, label: 6, forward: true })
        .push(Line::Against { n: 5, g: Gpr::Rdi })
        .push(Line::Jump { when: When::Equal, label: 7, forward: true })
        .push(Line::Against { n: 6, g: Gpr::Rdi })
        .push(Line::Jump { when: When::NotEqual, label: 3, forward: true })
        .push(Line::Put { n: 4096, g: Gpr::Rax })
}

/// Kinds 1 to 5: aligned loads walking the buffer; 2 with vprefetch0 4 lines
/// ahead, 3 with vprefetch1 16 ahead and vprefetch0 4 ahead, 4 with vprefetch1
/// 32 ahead only, 5 the `{uint8}` converting load (16 bytes a step). The caller
/// sizes the walk.
#[verifier::opaque]
pub open spec fn bench_walks() -> Seq<Line> {
    Seq::<Line>::empty()
        .push(Line::Mark { label: 3, indented: true })
        .push(Line::Load { z: Zmm(0), m: Mem::at(Gpr::Rcx, 0) })
        .push(Line::Plus { n: 64, g: Gpr::Rcx })
        .push(Line::Dec { g: Gpr::Rax })
        .push(Line::Jump { when: When::NotZero, label: 3, forward: false })
        .push(Line::Jump { when: When::Always, label: 9, forward: true })
        .push(Line::Mark { label: 4, indented: true })
        .push(Line::Fetch { insn: InsnV::vprefetch(Mem::at(Gpr::Rcx, 256), Cache::L1) })
        .push(Line::Load { z: Zmm(0), m: Mem::at(Gpr::Rcx, 0) })
        .push(Line::Plus { n: 64, g: Gpr::Rcx })
        .push(Line::Dec { g: Gpr::Rax })
        .push(Line::Jump { when: When::NotZero, label: 4, forward: false })
        .push(Line::Jump { when: When::Always, label: 9, forward: true })
        .push(Line::Mark { label: 5, indented: true })
        .push(Line::Fetch { insn: InsnV::vprefetch(Mem::at(Gpr::Rcx, 1024), Cache::L2) })
        .push(Line::Fetch { insn: InsnV::vprefetch(Mem::at(Gpr::Rcx, 256), Cache::L1) })
        .push(Line::Load { z: Zmm(0), m: Mem::at(Gpr::Rcx, 0) })
        .push(Line::Plus { n: 64, g: Gpr::Rcx })
        .push(Line::Dec { g: Gpr::Rax })
        .push(Line::Jump { when: When::NotZero, label: 5, forward: false })
        .push(Line::Jump { when: When::Always, label: 9, forward: true })
        .push(Line::Mark { label: 6, indented: true })
        .push(Line::Fetch { insn: InsnV::vprefetch(Mem::at(Gpr::Rcx, 2048), Cache::L2) })
        .push(Line::Load { z: Zmm(0), m: Mem::at(Gpr::Rcx, 0) })
        .push(Line::Plus { n: 64, g: Gpr::Rcx })
        .push(Line::Dec { g: Gpr::Rax })
        .push(Line::Jump { when: When::NotZero, label: 6, forward: false })
        .push(Line::Jump { when: When::Always, label: 9, forward: true })
        .push(Line::Mark { label: 7, indented: true })
        .push(Line::Vector { insn: InsnV::vmovaps_load_conv(Zmm(0), Mem::at(Gpr::Rcx, 0), Conv::U8, K(0)), z: Zmm(0) })
        .push(Line::Plus { n: 16, g: Gpr::Rcx })
        .push(Line::Dec { g: Gpr::Rax })
        .push(Line::Jump { when: When::NotZero, label: 7, forward: false })
}

/// The vector registers and the stack as they were.
#[verifier::opaque]
pub open spec fn bench_restore() -> Seq<Line> {
    Seq::<Line>::empty()
        .push(Line::Mark { label: 9, indented: true })
        .push(Line::Load { z: Zmm(0), m: Mem::at(Gpr::R8, 0) })
        .push(Line::Load { z: Zmm(1), m: Mem::at(Gpr::R8, 64) })
        .push(Line::Load { z: Zmm(2), m: Mem::at(Gpr::R8, 128) })
        .push(Line::Load { z: Zmm(3), m: Mem::at(Gpr::R8, 192) })
        .push(Line::Load { z: Zmm(4), m: Mem::at(Gpr::R8, 256) })
        .push(Line::Load { z: Zmm(5), m: Mem::at(Gpr::R8, 320) })
        .push(Line::Load { z: Zmm(6), m: Mem::at(Gpr::R8, 384) })
        .push(Line::Load { z: Zmm(7), m: Mem::at(Gpr::R8, 448) })
        .push(Line::Copy { from: Gpr::R9, to: Gpr::Rsp })
        .push(Line::Ret)
}

/// The rate kernel.
pub open spec fn bench_lines() -> Seq<Line> {
    bench_save() + bench_issue() + bench_choice() + bench_walks() + bench_restore()
}

impl Listing {
    /// The rate kernel.
    #[verifier::opaque]
    pub open spec fn phi_bench(self) -> Listing {
        self
            .lit("# phi_bench: raw issue and streaming rates (quant.md)\n"@)
            .label("phi_bench"@)
            .lines(bench_lines())
            .size("phi_bench"@)
    }
}

impl Asm {
    /// The vector registers that are written, on the stack, below what the caller
    /// has there.
    fn bench_save(&mut self)
        ensures
            final(self)@ == old(self)@.lines(bench_save()),
    {
        broadcast use Listing::lemma_none;
        broadcast use Listing::lemma_push;

        reveal(bench_save);
        self.mov_reg(Gpr::Rsp, Gpr::R9);
        self.t_imm("sub", 512, Gpr::Rsp);
        self.t_imm("and", -64, Gpr::Rsp);
        self.mov_reg(Gpr::Rsp, Gpr::R8);
        self.i(&plain::vmovaps_store(Mem::new(Gpr::R8, 0), Zmm(0)));
        self.i(&plain::vmovaps_store(Mem::new(Gpr::R8, 64), Zmm(1)));
        self.i(&plain::vmovaps_store(Mem::new(Gpr::R8, 128), Zmm(2)));
        self.i(&plain::vmovaps_store(Mem::new(Gpr::R8, 192), Zmm(3)));
        self.i(&plain::vmovaps_store(Mem::new(Gpr::R8, 256), Zmm(4)));
        self.i(&plain::vmovaps_store(Mem::new(Gpr::R8, 320), Zmm(5)));
        self.i(&plain::vmovaps_store(Mem::new(Gpr::R8, 384), Zmm(6)));
        self.i(&plain::vmovaps_store(Mem::new(Gpr::R8, 448), Zmm(7)));
    }

    /// Kind 0. A count in rdx replaces the default; not with a cmov: the card's
    /// scalar core is a P54C and has none.
    fn bench_issue(&mut self)
        ensures
            final(self)@ == old(self)@.lines(bench_issue()),
    {
        broadcast use Listing::lemma_none;
        broadcast use Listing::lemma_push;

        reveal(bench_issue);
        self.mov_reg(Gpr::Rdx, Gpr::Rax);
        self.test_reg(Gpr::Rax);
        self.jump("jnz", "8", true);
        self.t_imm("mov", 1000000, Gpr::Rax);
        self.mark("8", true);
        self.test_reg(Gpr::Rdi);
        self.jump("jnz", "2", true);
        self.mark("1", true);
        self.i(&plain::vfmadd231ps(Zmm(0), Zmm(8), Src::Reg(Zmm(16)), K(0)));
        self.i(&plain::vfmadd231ps(Zmm(1), Zmm(9), Src::Reg(Zmm(17)), K(0)));
        self.i(&plain::vfmadd231ps(Zmm(2), Zmm(10), Src::Reg(Zmm(18)), K(0)));
        self.i(&plain::vfmadd231ps(Zmm(3), Zmm(11), Src::Reg(Zmm(19)), K(0)));
        self.i(&plain::vfmadd231ps(Zmm(4), Zmm(12), Src::Reg(Zmm(20)), K(0)));
        self.i(&plain::vfmadd231ps(Zmm(5), Zmm(13), Src::Reg(Zmm(21)), K(0)));
        self.i(&plain::vfmadd231ps(Zmm(6), Zmm(14), Src::Reg(Zmm(22)), K(0)));
        self.i(&plain::vfmadd231ps(Zmm(7), Zmm(15), Src::Reg(Zmm(23)), K(0)));
        self.dec_reg(Gpr::Rax);
        self.jump("jnz", "1", false);
        self.jump("jmp", "9", true);
    }

    /// Which walk the kind asks for.
    fn bench_choice(&mut self)
        ensures
            final(self)@ == old(self)@.lines(bench_choice()),
    {
        broadcast use Listing::lemma_none;
        broadcast use Listing::lemma_push;

        reveal(bench_choice);
        self.mark("2", true);
        self.mov_reg(Gpr::Rsi, Gpr::Rcx);
        self.t_imm("cmp", 2, Gpr::Rdi);
        self.jump("je", "4", true);
        self.t_imm("cmp", 3, Gpr::Rdi);
        self.jump("je", "5", true);
        self.t_imm("cmp", 4, Gpr::Rdi);
        self.jump("je", "6", true);
        self.t_imm("cmp", 5, Gpr::Rdi);
        self.jump("je", "7", true);
        self.t_imm("cmp", 6, Gpr::Rdi);
        self.jump("jne", "3", true);
        self.t_imm("mov", 4096, Gpr::Rax);
    }

    /// Kinds 1 to 5: aligned loads walking the buffer; 2 with vprefetch0 4 lines
    /// ahead, 3 with vprefetch1 16 ahead and vprefetch0 4 ahead, 4 with vprefetch1
    /// 32 ahead only, 5 the `{uint8}` converting load (16 bytes a step). The caller
    /// sizes the walk.
    fn bench_walks(&mut self)
        ensures
            final(self)@ == old(self)@.lines(bench_walks()),
    {
        broadcast use Listing::lemma_none;
        broadcast use Listing::lemma_push;

        reveal(bench_walks);
        self.mark("3", true);
        self.i(&plain::vmovaps_load(Zmm(0), Mem::new(Gpr::Rcx, 0)));
        self.t_imm("add", 64, Gpr::Rcx);
        self.dec_reg(Gpr::Rax);
        self.jump("jnz", "3", false);
        self.jump("jmp", "9", true);
        self.mark("4", true);
        self.i(&conv::vprefetch(Mem::new(Gpr::Rcx, 256), Cache::L1));
        self.i(&plain::vmovaps_load(Zmm(0), Mem::new(Gpr::Rcx, 0)));
        self.t_imm("add", 64, Gpr::Rcx);
        self.dec_reg(Gpr::Rax);
        self.jump("jnz", "4", false);
        self.jump("jmp", "9", true);
        self.mark("5", true);
        self.i(&conv::vprefetch(Mem::new(Gpr::Rcx, 1024), Cache::L2));
        self.i(&conv::vprefetch(Mem::new(Gpr::Rcx, 256), Cache::L1));
        self.i(&plain::vmovaps_load(Zmm(0), Mem::new(Gpr::Rcx, 0)));
        self.t_imm("add", 64, Gpr::Rcx);
        self.dec_reg(Gpr::Rax);
        self.jump("jnz", "5", false);
        self.jump("jmp", "9", true);
        self.mark("6", true);
        self.i(&conv::vprefetch(Mem::new(Gpr::Rcx, 2048), Cache::L2));
        self.i(&plain::vmovaps_load(Zmm(0), Mem::new(Gpr::Rcx, 0)));
        self.t_imm("add", 64, Gpr::Rcx);
        self.dec_reg(Gpr::Rax);
        self.jump("jnz", "6", false);
        self.jump("jmp", "9", true);
        self.mark("7", true);
        self.i(&conv::vmovaps_load_conv(Zmm(0), Mem::new(Gpr::Rcx, 0), Conv::U8, K(0)));
        self.t_imm("add", 16, Gpr::Rcx);
        self.dec_reg(Gpr::Rax);
        self.jump("jnz", "7", false);
    }

    /// The vector registers and the stack as they were.
    fn bench_restore(&mut self)
        ensures
            final(self)@ == old(self)@.lines(bench_restore()),
    {
        broadcast use Listing::lemma_none;
        broadcast use Listing::lemma_push;

        reveal(bench_restore);
        self.mark("9", true);
        self.i(&plain::vmovaps_load(Zmm(0), Mem::new(Gpr::R8, 0)));
        self.i(&plain::vmovaps_load(Zmm(1), Mem::new(Gpr::R8, 64)));
        self.i(&plain::vmovaps_load(Zmm(2), Mem::new(Gpr::R8, 128)));
        self.i(&plain::vmovaps_load(Zmm(3), Mem::new(Gpr::R8, 192)));
        self.i(&plain::vmovaps_load(Zmm(4), Mem::new(Gpr::R8, 256)));
        self.i(&plain::vmovaps_load(Zmm(5), Mem::new(Gpr::R8, 320)));
        self.i(&plain::vmovaps_load(Zmm(6), Mem::new(Gpr::R8, 384)));
        self.i(&plain::vmovaps_load(Zmm(7), Mem::new(Gpr::R8, 448)));
        self.mov_reg(Gpr::R9, Gpr::Rsp);
        self.t("ret");
    }

    /// The rate kernel.
    fn phi_bench(&mut self)
        ensures
            final(self)@ == old(self)@.phi_bench(),
    {
        reveal(Listing::phi_bench);
        self.lit("# phi_bench: raw issue and streaming rates (quant.md)\n");
        self.label("phi_bench");
        let ghost l = self@;
        self.bench_save();
        self.bench_issue();
        self.bench_choice();
        self.bench_walks();
        self.bench_restore();
        proof {
            let a = bench_save() + bench_issue();
            let b = a + bench_choice();
            let c = b + bench_walks();
            l.lemma_lines(bench_save(), bench_issue());
            l.lemma_lines(a, bench_choice());
            l.lemma_lines(b, bench_walks());
            l.lemma_lines(c, bench_restore());
        }
        self.size("phi_bench");
    }
}

/// `phi_bench(kind, buf, count)`: the core's raw rates, timed by the
/// caller. kind 0: `count` iterations of eight independent register fused
/// multiply-adds (8 vector instructions each); kind 1: `count` aligned
/// 64-byte loads walking `buf`. `count` 0 means 1 M, which walks 64 MiB.
/// Both leave the vector registers as they find them: those they write are
/// saved on the stack first and loaded again before the return. The whole pool
/// runs it at once for the card's aggregate rates.
pub fn bench() -> (s: String)
    ensures
        s@ == Listing::empty().phi_bench().s,
{
    let mut a = Asm::new();
    a.phi_bench();
    a.0
}

} // verus!
