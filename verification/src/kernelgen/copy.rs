//! A copy in whole 64-byte vectors, for writing results into the host's
//! window through the card's mapping of it.
//!
//! The mapping is uncached, so every store is its own transaction across
//! the link and the width of the store is the width of the transaction.
//! The C library's `memcpy` on this core stores at most 8 bytes at a time
//! (Knights Corner has no SSE); a 64-byte `vmovaps` store is one
//! transaction for eight times the bytes. Uncached stores are also
//! strongly ordered, so a reply word written after the copy cannot be seen
//! before it.
use crate::kernelgen::listing::{Asm, Listing};
use crate::kernelgen::machine::{Line, When};
use crate::mvex::plain;
use crate::mvex::reg::{Gpr, Mem, Zmm};
use vstd::prelude::*;

verus! {

pub const DST: Gpr = Gpr::Rdi;

pub const SRC: Gpr = Gpr::Rsi;

pub const COUNT: Gpr = Gpr::Rdx;

/// The copy: four loads, then four stores, then one at a time for the rest.
#[verifier::opaque]
pub open spec fn copy_lines() -> Seq<Line> {
    Seq::<Line>::empty()
        .push(Line::Against { n: 4, g: COUNT })
        .push(Line::Jump { when: When::Below, label: 2, forward: true })
        .push(Line::Mark { label: 1, indented: false })
        .push(Line::Load { z: Zmm(0), m: Mem::at(SRC, 0) })
        .push(Line::Load { z: Zmm(1), m: Mem::at(SRC, 64) })
        .push(Line::Load { z: Zmm(2), m: Mem::at(SRC, 128) })
        .push(Line::Load { z: Zmm(3), m: Mem::at(SRC, 192) })
        .push(Line::Store { m: Mem::at(DST, 0), z: Zmm(0) })
        .push(Line::Store { m: Mem::at(DST, 64), z: Zmm(1) })
        .push(Line::Store { m: Mem::at(DST, 128), z: Zmm(2) })
        .push(Line::Store { m: Mem::at(DST, 192), z: Zmm(3) })
        .push(Line::Plus { n: 256, g: SRC })
        .push(Line::Plus { n: 256, g: DST })
        .push(Line::Minus { n: 4, g: COUNT })
        .push(Line::Against { n: 4, g: COUNT })
        .push(Line::Jump { when: When::NotBelow, label: 1, forward: false })
        .push(Line::Mark { label: 2, indented: false })
        .push(Line::Test { g: COUNT })
        .push(Line::Jump { when: When::Zero, label: 4, forward: true })
        .push(Line::Mark { label: 3, indented: false })
        .push(Line::Load { z: Zmm(0), m: Mem::at(SRC, 0) })
        .push(Line::Store { m: Mem::at(DST, 0), z: Zmm(0) })
        .push(Line::Plus { n: 64, g: SRC })
        .push(Line::Plus { n: 64, g: DST })
        .push(Line::Dec { g: COUNT })
        .push(Line::Jump { when: When::NotZero, label: 3, forward: false })
        .push(Line::Mark { label: 4, indented: false })
        .push(Line::Ret)
}

impl Listing {
    /// The copy.
    #[verifier::opaque]
    pub open spec fn phi_copy64(self) -> Listing {
        self
            .lit("# phi_copy64: rdx 64-byte vectors from rsi to rdi, whole-vector stores (copy.rs)\n"@)
            .label("phi_copy64"@)
            .lines(copy_lines())
            .size("phi_copy64"@)
    }
}

impl Asm {
    /// The lines of the copy.
    fn copy_lines(&mut self)
        ensures
            final(self)@ == old(self)@.lines(copy_lines()),
    {
        broadcast use Listing::lemma_none;
        broadcast use Listing::lemma_push;

        reveal(copy_lines);
        self.t_imm("cmp", 4, COUNT);
        self.jump("jb", "2", true);
        self.mark("1", false);
        self.i(&plain::vmovaps_load(Zmm(0), Mem::new(SRC, 0)));
        self.i(&plain::vmovaps_load(Zmm(1), Mem::new(SRC, 64)));
        self.i(&plain::vmovaps_load(Zmm(2), Mem::new(SRC, 128)));
        self.i(&plain::vmovaps_load(Zmm(3), Mem::new(SRC, 192)));
        self.i(&plain::vmovaps_store(Mem::new(DST, 0), Zmm(0)));
        self.i(&plain::vmovaps_store(Mem::new(DST, 64), Zmm(1)));
        self.i(&plain::vmovaps_store(Mem::new(DST, 128), Zmm(2)));
        self.i(&plain::vmovaps_store(Mem::new(DST, 192), Zmm(3)));
        self.t_imm("add", 256, SRC);
        self.t_imm("add", 256, DST);
        self.t_imm("sub", 4, COUNT);
        self.t_imm("cmp", 4, COUNT);
        self.jump("jae", "1", false);
        self.mark("2", false);
        self.test_reg(COUNT);
        self.jump("jz", "4", true);
        self.mark("3", false);
        self.i(&plain::vmovaps_load(Zmm(0), Mem::new(SRC, 0)));
        self.i(&plain::vmovaps_store(Mem::new(DST, 0), Zmm(0)));
        self.t_imm("add", 64, SRC);
        self.t_imm("add", 64, DST);
        self.dec_reg(COUNT);
        self.jump("jnz", "3", false);
        self.mark("4", false);
        self.t("ret");
    }

    /// The copy.
    fn phi_copy64(&mut self)
        ensures
            final(self)@ == old(self)@.phi_copy64(),
    {
        reveal(Listing::phi_copy64);
        self.lit("# phi_copy64: rdx 64-byte vectors from rsi to rdi, whole-vector stores (copy.rs)\n");
        self.label("phi_copy64");
        self.copy_lines();
        self.size("phi_copy64");
    }
}

/// `phi_copy64(dst, src, count)`: `count` 64-byte vectors from `src` (card
/// memory) to `dst` (the window), both 64-byte aligned. The loads come from
/// the card's own memory, where the results were just written, so there is
/// nothing to prefetch.
pub fn copy64() -> (s: String)
    ensures
        s@ == Listing::empty().phi_copy64().s,
{
    let mut a = Asm::new();
    a.phi_copy64();
    a.0
}

} // verus!
