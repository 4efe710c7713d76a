//! The dot-product kernels: the inner product of one row of the weights
//! with one row of the activations, 16 lanes at a time, four accumulators
//! deep so the vector unit's result latency is covered, leaving the 16
//! partial sums in a 64-byte output for the caller to reduce. Weights come
//! as float16 (up-converted by the load itself, the card's `{float16}`
//! conversion) or float32; activations are float32 and may be at any
//! alignment (the unpack pair).
use crate::kernelgen::listing::{Asm, Listing};
use crate::mvex::conv;
use crate::mvex::encode::InsnV;
use crate::mvex::plain;
use crate::mvex::reg::{Gpr, Mem, Src, Zmm, K};
use vstd::prelude::*;

verus! {

/// The unaligned pair at `[base + disp]`.
pub open spec fn load_pair(dst: u8, base: Gpr, disp: i32) -> Seq<InsnV> {
    seq![
        InsnV::vloadunpackld(Zmm(dst), Mem::at(base, disp), K(0)),
        InsnV::vloadunpackhd(Zmm(dst), Mem::at(base, (disp + 64) as i32), K(0)),
    ]
}

/// 16 weights at `[rdi + disp]`: 16 halfs (32-byte aligned) or 16 floats
/// (any alignment).
pub open spec fn weights(dst: u8, disp: i32, half: bool) -> Seq<InsnV> {
    if half {
        seq![InsnV::vmovaps_load_f16(Zmm(dst), Mem::at(Gpr::Rdi, disp))]
    } else {
        load_pair(dst, Gpr::Rdi, disp)
    }
}

/// Bytes one vector of weights occupies.
#[verifier::allow_in_spec]
pub fn step_of(half: bool) -> i32
    returns
        (if half { 32i32 } else { 64i32 }),
{
    if half {
        32
    } else {
        64
    }
}

impl Listing {
    pub open spec fn clear(self, z: u8) -> Listing {
        self.i(InsnV::vpxord(Zmm(z), Zmm(z), Src::Reg(Zmm(z)), K(0)))
    }

    pub open spec fn fma(self, acc: u8, w: u8, x: u8) -> Listing {
        self.i(InsnV::vfmadd231ps(Zmm(acc), Zmm(w), Src::Reg(Zmm(x)), K(0)))
    }

    pub open spec fn fold(self, a: u8, b: u8) -> Listing {
        self.i(InsnV::vaddps(Zmm(a), Zmm(a), Src::Reg(Zmm(b)), K(0)))
    }
}

impl Asm {
    fn load_pair(&mut self, dst: u8, base: Gpr, disp: i32)
        requires
            dst < 32,
            base != Gpr::Rsp && base != Gpr::R12,
            disp < 0x1000,
        ensures
            final(self)@ == old(self)@.all(load_pair(dst, base, disp)),
    {
        let ghost s = load_pair(dst, base, disp);
        let ghost l = self@;
        self.i(&plain::vloadunpackld(Zmm(dst), Mem::new(base, disp), K(0)));
        self.i(&plain::vloadunpackhd(Zmm(dst), Mem::new(base, disp + 64), K(0)));
        proof {
            l.lemma_ends(s);
            l.lemma_take(s, 0);
            l.lemma_take(s, 1);
        }
    }

    fn weights(&mut self, dst: u8, disp: i32, half: bool)
        requires
            dst < 32,
            disp < 0x1000,
        ensures
            final(self)@ == old(self)@.all(weights(dst, disp, half)),
    {
        let ghost s = weights(dst, disp, half);
        let ghost l = self@;
        if half {
            self.i(&conv::vmovaps_load_f16(Zmm(dst), Mem::new(Gpr::Rdi, disp)));
            proof {
                l.lemma_ends(s);
                l.lemma_take(s, 0);
            }
        } else {
            self.load_pair(dst, Gpr::Rdi, disp);
        }
    }

    pub fn clear(&mut self, z: u8)
        requires
            z < 32,
        ensures
            final(self)@ == old(self)@.clear(z),
    {
        self.i(&plain::vpxord(Zmm(z), Zmm(z), Src::Reg(Zmm(z)), K(0)));
    }

    pub fn fma(&mut self, acc: u8, w: u8, x: u8)
        requires
            acc < 32,
            w < 32,
            x < 32,
        ensures
            final(self)@ == old(self)@.fma(acc, w, x),
    {
        self.i(&plain::vfmadd231ps(Zmm(acc), Zmm(w), Src::Reg(Zmm(x)), K(0)));
    }

    pub fn fold(&mut self, a: u8, b: u8)
        requires
            a < 32,
            b < 32,
        ensures
            final(self)@ == old(self)@.fold(a, b),
    {
        self.i(&plain::vaddps(Zmm(a), Zmm(a), Src::Reg(Zmm(b)), K(0)));
    }

    /// The accumulators zmm0 to zmm3 cleared.
    fn clear4(&mut self)
        ensures
            final(self)@ == old(self)@.clear(0).clear(1).clear(2).clear(3),
    {
        self.clear(0);
        self.clear(1);
        self.clear(2);
        self.clear(3);
    }
}

/// What the weights are, in words.
pub open spec fn weight_words(half: bool) -> Seq<char> {
    if half {
        "float16, 32-byte aligned"@
    } else {
        "float32, any alignment"@
    }
}

/// Four vectors of weights and activations, and their products added.
pub open spec fn kernel_body(l: Listing, half: bool) -> Listing {
    let st = step_of(half);
    l
        .all(weights(4, 0, half))
        .all(weights(5, st, half))
        .all(weights(6, (2 * st) as i32, half))
        .all(weights(7, (3 * st) as i32, half))
        .all(load_pair(8, Gpr::Rsi, 0))
        .all(load_pair(9, Gpr::Rsi, 64))
        .all(load_pair(10, Gpr::Rsi, 128))
        .all(load_pair(11, Gpr::Rsi, 192))
        .fma(0, 4, 8)
        .fma(1, 5, 9)
        .fma(2, 6, 10)
        .fma(3, 7, 11)
}

/// One weight row against one activation row.
pub open spec fn kernel_listing(name: Seq<char>, half: bool) -> Listing {
    let st = step_of(half);
    let l = Listing::empty()
        .lit("# "@)
        .lit(name)
        .lit(": 16 partial sums of a[0..16*k16) . b[0..16*k16) into out[16]\n#   rdi = a ("@)
        .lit(weight_words(half))
        .lit("), rsi = b (float32, any alignment), rdx = k16, rcx = out (64-byte aligned)\n"@)
        .label(name)
        .clear(0)
        .clear(1)
        .clear(2)
        .clear(3)
        .lit("1:\n    cmp $4, %rdx\n    jl 2f\n"@);
    kernel_body(l, half)
        .lit("    add $"@)
        .num(4 * st)
        .lit(", %rdi\n    add $256, %rsi\n    sub $4, %rdx\n    jmp 1b\n"@)
        .lit("2:\n    test %rdx, %rdx\n    jle 3f\n"@)
        .all(weights(4, 0, half))
        .all(load_pair(8, Gpr::Rsi, 0))
        .fma(0, 4, 8)
        .lit("    add $"@)
        .num(st as int)
        .lit(", %rdi\n    add $64, %rsi\n    sub $1, %rdx\n    jmp 2b\n"@)
        .lit("3:\n"@)
        .fold(0, 1)
        .fold(2, 3)
        .fold(0, 2)
        .i(InsnV::vmovaps_store(Mem::at(Gpr::Rcx, 0), Zmm(0)))
        .lit("    ret\n"@)
        .size(name)
}

/// One weight row against one activation row: four vectors per iteration,
/// then the tail one vector at a time, then the accumulators folded and the
/// 16 partial sums stored.
pub fn kernel(name: &str, half: bool) -> (s: String)
    ensures
        s@ == kernel_listing(name@, half).s,
{
    let st: i32 = step_of(half);
    let mut a = Asm::new();
    a.lit("# ");
    a.lit(name);
    a.lit(": 16 partial sums of a[0..16*k16) . b[0..16*k16) into out[16]\n#   rdi = a (");
    a.lit(if half { "float16, 32-byte aligned" } else { "float32, any alignment" });
    a.lit("), rsi = b (float32, any alignment), rdx = k16, rcx = out (64-byte aligned)\n");
    a.label(name);
    a.clear4();
    a.lit("1:\n    cmp $4, %rdx\n    jl 2f\n");
    a.weights(4, 0, half);
    a.weights(5, st, half);
    a.weights(6, 2 * st, half);
    a.weights(7, 3 * st, half);
    a.load_pair(8, Gpr::Rsi, 0);
    a.load_pair(9, Gpr::Rsi, 64);
    a.load_pair(10, Gpr::Rsi, 128);
    a.load_pair(11, Gpr::Rsi, 192);
    a.fma(0, 4, 8);
    a.fma(1, 5, 9);
    a.fma(2, 6, 10);
    a.fma(3, 7, 11);
    a.lit("    add $");
    a.num(4 * st);
    a.lit(", %rdi\n    add $256, %rsi\n    sub $4, %rdx\n    jmp 1b\n");
    a.lit("2:\n    test %rdx, %rdx\n    jle 3f\n");
    a.weights(4, 0, half);
    a.load_pair(8, Gpr::Rsi, 0);
    a.fma(0, 4, 8);
    a.lit("    add $");
    a.num(st);
    a.lit(", %rdi\n    add $64, %rsi\n    sub $1, %rdx\n    jmp 2b\n");
    a.lit("3:\n");
    a.fold(0, 1);
    a.fold(2, 3);
    a.fold(0, 2);
    a.i(&plain::vmovaps_store(Mem::new(Gpr::Rcx, 0), Zmm(0)));
    a.lit("    ret\n");
    a.size(name);
    a.0
}

/// One weight row against four activation rows at once.
pub open spec fn kernel4_listing(name: Seq<char>, half: bool) -> Listing {
    Listing::empty()
        .lit("# "@)
        .lit(name)
        .lit(
            ": four dot products of a with b, b+nb, b+2nb, b+3nb; 16 partial sums each into out[4][16]\n#   rdi = a ("@,
        )
        .lit(weight_words(half))
        .lit(
            "), rsi = b (float32, any alignment), rdx = k16, rcx = out (64-byte aligned), r8 = nb (bytes)\n"@,
        )
        .label(name)
        .lit("    lea (%rsi,%r8,1), %r9\n    lea (%r9,%r8,1), %r10\n    lea (%r10,%r8,1), %r11\n"@)
        .clear(0)
        .clear(1)
        .clear(2)
        .clear(3)
        .lit("1:\n    test %rdx, %rdx\n    jle 2f\n"@)
        .all(weights(4, 0, half))
        .all(load_pair(8, Gpr::Rsi, 0))
        .all(load_pair(9, Gpr::R9, 0))
        .all(load_pair(10, Gpr::R10, 0))
        .all(load_pair(11, Gpr::R11, 0))
        .fma(0, 4, 8)
        .fma(1, 4, 9)
        .fma(2, 4, 10)
        .fma(3, 4, 11)
        .lit("    add $"@)
        .num(step_of(half) as int)
        .lit(
            ", %rdi\n    add $64, %rsi\n    add $64, %r9\n    add $64, %r10\n    add $64, %r11\n    sub $1, %rdx\n    jmp 1b\n"@,
        )
        .lit("2:\n"@)
        .i(InsnV::vmovaps_store(Mem::at(Gpr::Rcx, 0), Zmm(0)))
        .i(InsnV::vmovaps_store(Mem::at(Gpr::Rcx, 64), Zmm(1)))
        .i(InsnV::vmovaps_store(Mem::at(Gpr::Rcx, 128), Zmm(2)))
        .i(InsnV::vmovaps_store(Mem::at(Gpr::Rcx, 192), Zmm(3)))
        .lit("    ret\n"@)
        .size(name)
}

/// One weight row against four activation rows at once: the weight
/// vector is loaded once per step and feeds four accumulators, so a row
/// of the weights is read once per four columns of the result.
///   rdi = a, rsi = b (row 0), rdx = k16, rcx = out (4 x 64 bytes), r8 = row stride of b
pub fn kernel4(name: &str, half: bool) -> (s: String)
    ensures
        s@ == kernel4_listing(name@, half).s,
{
    let mut a = Asm::new();
    a.lit("# ");
    a.lit(name);
    a.lit(
        ": four dot products of a with b, b+nb, b+2nb, b+3nb; 16 partial sums each into out[4][16]\n#   rdi = a (",
    );
    a.lit(if half { "float16, 32-byte aligned" } else { "float32, any alignment" });
    a.lit(
        "), rsi = b (float32, any alignment), rdx = k16, rcx = out (64-byte aligned), r8 = nb (bytes)\n",
    );
    a.label(name);
    a.lit("    lea (%rsi,%r8,1), %r9\n    lea (%r9,%r8,1), %r10\n    lea (%r10,%r8,1), %r11\n");
    a.clear4();
    a.lit("1:\n    test %rdx, %rdx\n    jle 2f\n");
    a.weights(4, 0, half);
    a.load_pair(8, Gpr::Rsi, 0);
    a.load_pair(9, Gpr::R9, 0);
    a.load_pair(10, Gpr::R10, 0);
    a.load_pair(11, Gpr::R11, 0);
    a.fma(0, 4, 8);
    a.fma(1, 4, 9);
    a.fma(2, 4, 10);
    a.fma(3, 4, 11);
    a.lit("    add $");
    a.num(step_of(half));
    a.lit(
        ", %rdi\n    add $64, %rsi\n    add $64, %r9\n    add $64, %r10\n    add $64, %r11\n    sub $1, %rdx\n    jmp 1b\n",
    );
    a.lit("2:\n");
    a.i(&plain::vmovaps_store(Mem::new(Gpr::Rcx, 0), Zmm(0)));
    a.i(&plain::vmovaps_store(Mem::new(Gpr::Rcx, 64), Zmm(1)));
    a.i(&plain::vmovaps_store(Mem::new(Gpr::Rcx, 128), Zmm(2)));
    a.i(&plain::vmovaps_store(Mem::new(Gpr::Rcx, 192), Zmm(3)));
    a.lit("    ret\n");
    a.size(name);
    a.0
}

} // verus!
