//! The SwiGLU of a feed-forward block on the card's vector unit:
//! `h = silu(g) * u`, where `silu(g) = g / (1 + exp(-g))`, the gated
//! linear unit llama.cpp builds with `ggml_swiglu_split(gate, up)`. It is
//! what lets the intermediate of a feed-forward stay on the card between
//! its first two projections and its last.
//!
//! Per sixteen lanes, seven vector instructions and no scalar code:
//!
//! ```text
//!   t = g * -log2(e)                    vmulps, the constant broadcast
//!   t = fixed point 8.24 of t            vcvtfxpntps2dq, exponent adjustment 24
//!   t = 2^t = exp(-g)                    vexp223ps
//!   t = t + 1                            vaddps, the constant broadcast
//!   t = 1 / t = sigmoid(g)               vrcp23ps
//!   g = g * t                            vmulps
//!   g = g * u                            vmulps, u straight from memory
//! ```
//!
//! The first three are Intel's exp2: the conversion saturates, so g below
//! about -88.7 (t at or past 128) gives INT_MAX, which `vexp223ps` turns
//! into +inf, whose reciprocal is 0, and silu is -0; g above 88.7 gives
//! INT_MIN, then +0, then 1, and silu is g. Both ends are the limits of
//! the true function.
//!
//! One body, four entry points. `phi_swiglu` stores float32.
//! `phi_swiglu16` stores float16 through the store's own down-conversion,
//! which is what the down projection reads. `phi_swiglu_edge` and
//! `phi_swiglu16_edge` are one vector of either under a write-mask, so a
//! thread can cover exactly its own rows when they do not start or end on
//! a vector: it computes all sixteen lanes (reading a neighbour's, which
//! may be half written, and discarding them) and stores only its own.
//!
//! Four vectors are in flight per loop turn: the vector unit's result
//! latency is four cycles and the core issues in order, so four independent
//! chains keep every stage's inputs ready by the time it issues.
use crate::kernelgen::listing::{Asm, Listing};
use crate::kernelgen::quant::{C_NEG_LOG2E, C_ONE};
use crate::mvex::conv;
use crate::mvex::conv::{ExpAdj, Round};
use crate::mvex::encode::{Insn, InsnV};
use crate::mvex::plain;
use crate::mvex::reg::{Conv, Gpr, Mem, Src, Zmm, K};
use crate::mvex::transc;
use vstd::prelude::*;

verus! {

pub const G: Gpr = Gpr::Rdi;

pub const U: Gpr = Gpr::Rsi;

pub const H: Gpr = Gpr::Rdx;

pub const COUNT: Gpr = Gpr::Rcx;

/// What the results are stored as.
#[derive(Clone, Copy, PartialEq, Eq, Structural, Debug)]
pub enum Out {
    F32,
    F16,
}

impl Out {
    /// The bytes one vector of results occupies.
    #[verifier::allow_in_spec]
    pub fn bytes(self) -> i32
        returns
            (match self {
                Out::F32 => 64i32,
                Out::F16 => 32i32,
            }),
    {
        match self {
            Out::F32 => 64,
            Out::F16 => 32,
        }
    }

    pub open spec fn spec_word(self) -> Seq<char> {
        match self {
            Out::F32 => "float32"@,
            Out::F16 => "float16"@,
        }
    }

    pub fn word(self) -> (s: &'static str)
        ensures
            s@ == self.spec_word(),
    {
        match self {
            Out::F32 => "float32",
            Out::F16 => "float16",
        }
    }
}

/// The constant at `off` of the constant block, in r8, broadcast.
pub open spec fn spec_broadcast(off: i32) -> Src {
    Src::MemConv(Mem::at(Gpr::R8, off), Conv::Bcast1)
}

fn broadcast(off: i32) -> (s: Src)
    ensures
        s == spec_broadcast(off),
        s.ok(),
{
    Src::MemConv(Mem::new(Gpr::R8, off), Conv::Bcast1)
}

/// The store of a result: float32 under no mask is the plain store, every
/// other one the converting store.
pub open spec fn store_of(at: Mem, z: Zmm, out: Out, k: K) -> InsnV {
    match out {
        Out::F32 => if k == K(0) {
            InsnV::vmovaps_store(at, z)
        } else {
            InsnV::vmovaps_store_conv(at, z, Conv::Plain, k)
        },
        Out::F16 => InsnV::vmovaps_store_conv(at, z, Conv::F16, k),
    }
}

fn store(at: Mem, z: Zmm, out: Out, k: K) -> (i: Insn)
    requires
        z.ok(),
        k.ok(),
    ensures
        i@ == store_of(at, z, out, k),
{
    match out {
        Out::F32 => if k.0 == 0 {
            plain::vmovaps_store(at, z)
        } else {
            conv::vmovaps_store_conv(at, z, Conv::Plain, k)
        },
        Out::F16 => conv::vmovaps_store_conv(at, z, Conv::F16, k),
    }
}

/// The gates loaded.
pub open spec fn glu_load(n: u8) -> Seq<InsnV> {
    Seq::new(n as nat, |j: int| InsnV::vmovaps_load(Zmm(j as u8), Mem::at(G, (64 * j) as i32)))
}

impl Asm {
    /// The gates loaded.
    fn glu_load(&mut self, n: u8)
        requires
            n <= 4,
        ensures
            final(self)@ == old(self)@.all(glu_load(n)),
    {
        let ghost s = glu_load(n);
        let ghost l = self@;
        proof {
            l.lemma_ends(s);
        }
        for j in 0..n
            invariant
                s == glu_load(n),
                s.len() == n,
                self@ == l.all(s.take(j as int)),
                n <= 4,
        {
            proof {
                l.lemma_take(s, j as int);
            }
            self.i(&plain::vmovaps_load(Zmm(j as u8), Mem::new(G, 64 * j as i32)));
        }
    }
}

/// `t = g * -log2(e)`.
pub open spec fn glu_log2(n: u8) -> Seq<InsnV> {
    Seq::new(n as nat, |j: int| InsnV::vmulps(Zmm((8 + j) as u8), Zmm(j as u8), spec_broadcast(C_NEG_LOG2E), K(0)))
}

impl Asm {
    /// `t = g * -log2(e)`.
    fn glu_log2(&mut self, n: u8)
        requires
            n <= 4,
        ensures
            final(self)@ == old(self)@.all(glu_log2(n)),
    {
        let ghost s = glu_log2(n);
        let ghost l = self@;
        proof {
            l.lemma_ends(s);
        }
        for j in 0..n
            invariant
                s == glu_log2(n),
                s.len() == n,
                self@ == l.all(s.take(j as int)),
                n <= 4,
        {
            proof {
                l.lemma_take(s, j as int);
            }
            self.i(&plain::vmulps(Zmm((8 + j) as u8), Zmm(j as u8), broadcast(C_NEG_LOG2E), K(0)));
        }
    }
}

/// To fixed point 8.24.
pub open spec fn glu_fixed(n: u8) -> Seq<InsnV> {
    Seq::new(n as nat, |j: int| InsnV::vcvtfxpntps2dq_adj(Zmm((8 + j) as u8), Src::Reg(Zmm((8 + j) as u8)), Round::Nearest, ExpAdj::Q8_24, K(0)))
}

impl Asm {
    /// To fixed point 8.24.
    fn glu_fixed(&mut self, n: u8)
        requires
            n <= 4,
        ensures
            final(self)@ == old(self)@.all(glu_fixed(n)),
    {
        let ghost s = glu_fixed(n);
        let ghost l = self@;
        proof {
            l.lemma_ends(s);
        }
        for j in 0..n
            invariant
                s == glu_fixed(n),
                s.len() == n,
                self@ == l.all(s.take(j as int)),
                n <= 4,
        {
            proof {
                l.lemma_take(s, j as int);
            }
            self.i(&conv::vcvtfxpntps2dq_adj(Zmm((8 + j) as u8), Src::Reg(Zmm((8 + j) as u8)), Round::Nearest, ExpAdj::Q8_24, K(0)));
        }
    }
}

/// `2^t = exp(-g)`.
pub open spec fn glu_exp(n: u8) -> Seq<InsnV> {
    Seq::new(n as nat, |j: int| InsnV::vexp223ps(Zmm((8 + j) as u8), Zmm((8 + j) as u8), K(0)))
}

impl Asm {
    /// `2^t = exp(-g)`.
    fn glu_exp(&mut self, n: u8)
        requires
            n <= 4,
        ensures
            final(self)@ == old(self)@.all(glu_exp(n)),
    {
        let ghost s = glu_exp(n);
        let ghost l = self@;
        proof {
            l.lemma_ends(s);
        }
        for j in 0..n
            invariant
                s == glu_exp(n),
                s.len() == n,
                self@ == l.all(s.take(j as int)),
                n <= 4,
        {
            proof {
                l.lemma_take(s, j as int);
            }
            self.i(&transc::vexp223ps(Zmm((8 + j) as u8), Zmm((8 + j) as u8), K(0)));
        }
    }
}

/// `t = t + 1`.
pub open spec fn glu_one(n: u8) -> Seq<InsnV> {
    Seq::new(n as nat, |j: int| InsnV::vaddps(Zmm((8 + j) as u8), Zmm((8 + j) as u8), spec_broadcast(C_ONE), K(0)))
}

impl Asm {
    /// `t = t + 1`.
    fn glu_one(&mut self, n: u8)
        requires
            n <= 4,
        ensures
            final(self)@ == old(self)@.all(glu_one(n)),
    {
        let ghost s = glu_one(n);
        let ghost l = self@;
        proof {
            l.lemma_ends(s);
        }
        for j in 0..n
            invariant
                s == glu_one(n),
                s.len() == n,
                self@ == l.all(s.take(j as int)),
                n <= 4,
        {
            proof {
                l.lemma_take(s, j as int);
            }
            self.i(&plain::vaddps(Zmm((8 + j) as u8), Zmm((8 + j) as u8), broadcast(C_ONE), K(0)));
        }
    }
}

/// `1 / t = sigmoid(g)`.
pub open spec fn glu_recip(n: u8) -> Seq<InsnV> {
    Seq::new(n as nat, |j: int| InsnV::vrcp23ps(Zmm((8 + j) as u8), Zmm((8 + j) as u8), K(0)))
}

impl Asm {
    /// `1 / t = sigmoid(g)`.
    fn glu_recip(&mut self, n: u8)
        requires
            n <= 4,
        ensures
            final(self)@ == old(self)@.all(glu_recip(n)),
    {
        let ghost s = glu_recip(n);
        let ghost l = self@;
        proof {
            l.lemma_ends(s);
        }
        for j in 0..n
            invariant
                s == glu_recip(n),
                s.len() == n,
                self@ == l.all(s.take(j as int)),
                n <= 4,
        {
            proof {
                l.lemma_take(s, j as int);
            }
            self.i(&transc::vrcp23ps(Zmm((8 + j) as u8), Zmm((8 + j) as u8), K(0)));
        }
    }
}

/// `g = g * t`.
pub open spec fn glu_gate(n: u8) -> Seq<InsnV> {
    Seq::new(n as nat, |j: int| InsnV::vmulps(Zmm(j as u8), Zmm(j as u8), Src::Reg(Zmm((8 + j) as u8)), K(0)))
}

impl Asm {
    /// `g = g * t`.
    fn glu_gate(&mut self, n: u8)
        requires
            n <= 4,
        ensures
            final(self)@ == old(self)@.all(glu_gate(n)),
    {
        let ghost s = glu_gate(n);
        let ghost l = self@;
        proof {
            l.lemma_ends(s);
        }
        for j in 0..n
            invariant
                s == glu_gate(n),
                s.len() == n,
                self@ == l.all(s.take(j as int)),
                n <= 4,
        {
            proof {
                l.lemma_take(s, j as int);
            }
            self.i(&plain::vmulps(Zmm(j as u8), Zmm(j as u8), Src::Reg(Zmm((8 + j) as u8)), K(0)));
        }
    }
}

/// `g = g * u`, `u` straight from memory.
pub open spec fn glu_up(n: u8) -> Seq<InsnV> {
    Seq::new(n as nat, |j: int| InsnV::vmulps(Zmm(j as u8), Zmm(j as u8), Src::Mem(Mem::at(U, (64 * j) as i32)), K(0)))
}

impl Asm {
    /// `g = g * u`, `u` straight from memory.
    fn glu_up(&mut self, n: u8)
        requires
            n <= 4,
        ensures
            final(self)@ == old(self)@.all(glu_up(n)),
    {
        let ghost s = glu_up(n);
        let ghost l = self@;
        proof {
            l.lemma_ends(s);
        }
        for j in 0..n
            invariant
                s == glu_up(n),
                s.len() == n,
                self@ == l.all(s.take(j as int)),
                n <= 4,
        {
            proof {
                l.lemma_take(s, j as int);
            }
            self.i(&plain::vmulps(Zmm(j as u8), Zmm(j as u8), Src::Mem(Mem::new(U, 64 * j as i32)), K(0)));
        }
    }
}

/// The results stored as `out` under mask `k`.
pub open spec fn glu_stores(n: u8, out: Out, k: K) -> Seq<InsnV> {
    Seq::new(n as nat, |j: int| store_of(Mem::at(H, (out.bytes() * j) as i32), Zmm(j as u8), out, k))
}

impl Asm {
    /// The results stored as `out` under mask `k`.
    fn glu_stores(&mut self, n: u8, out: Out, k: K)
        requires
            n <= 4,
            k.ok(),
        ensures
            final(self)@ == old(self)@.all(glu_stores(n, out, k)),
    {
        let ghost s = glu_stores(n, out, k);
        let ghost l = self@;
        proof {
            l.lemma_ends(s);
        }
        for j in 0..n
            invariant
                s == glu_stores(n, out, k),
                s.len() == n,
                self@ == l.all(s.take(j as int)),
                n <= 4,
                k.ok(),
        {
            proof {
                l.lemma_take(s, j as int);
            }
            self.i(&store(Mem::new(H, out.bytes() * j as i32), Zmm(j as u8), out, k));
        }
    }
}

impl Listing {
    /// `n` vectors starting at the three pointers, stage by stage, stored as
    /// `out` under mask `k` (k0: every lane); then the pointers advance.
    #[verifier::opaque]
    pub open spec fn glu_body(self, n: u8, out: Out, k: K) -> Listing {
        self
            .all(glu_load(n))
            .all(glu_log2(n))
            .all(glu_fixed(n))
            .all(glu_exp(n))
            .all(glu_one(n))
            .all(glu_recip(n))
            .all(glu_gate(n))
            .all(glu_up(n))
            .all(glu_stores(n, out, k))
            .t_imm("add"@, 64 * n, G)
            .t_imm("add"@, 64 * n, U)
            .t_imm("add"@, out.bytes() * n, H)
    }
}

impl Asm {
    /// `n` vectors starting at the three pointers, stage by stage, stored as
    /// `out` under mask `k` (k0: every lane); then the pointers advance.
    fn glu_body(&mut self, n: u8, out: Out, k: K)
        requires
            n == 1 || n == 4,
            k.ok(),
        ensures
            final(self)@ == old(self)@.glu_body(n, out, k),
    {
        reveal(Listing::glu_body);
        self.glu_load(n);
        self.glu_log2(n);
        self.glu_fixed(n);
        self.glu_exp(n);
        self.glu_one(n);
        self.glu_recip(n);
        self.glu_gate(n);
        self.glu_up(n);
        self.glu_stores(n, out, k);
        self.t_imm("add", 64 * n as i32, G);
        self.t_imm("add", 64 * n as i32, U);
        self.t_imm("add", out.bytes() * n as i32, H);
    }
}

impl Listing {
    /// The comment and the label of an entry point.
    #[verifier::opaque]
    pub open spec fn glu_head(self, name: Seq<char>, what: Seq<char>, format: Seq<char>, rest: Seq<char>) -> Listing {
        self
            .lit("# "@)
            .lit(name)
            .lit(": "@)
            .lit(what)
            .lit(format)
            .lit(rest)
            .lit(" (glu.rs)\n"@)
            .label(name)
    }
}

impl Asm {
    /// The comment and the label of an entry point.
    fn glu_head(&mut self, name: &str, what: &str, format: &str, rest: &str)
        ensures
            final(self)@ == old(self)@.glu_head(name@, what@, format@, rest@),
    {
        reveal(Listing::glu_head);
        self.lit("# ");
        self.lit(name);
        self.lit(": ");
        self.lit(what);
        self.lit(format);
        self.lit(rest);
        self.lit(" (glu.rs)\n");
        self.label(name);
    }
}

impl Listing {
    /// `name(g, u, h, count, consts)`: `count` vectors, `h[i] = silu(g[i]) *
    /// u[i]`. rdi = g, rsi = u, rdx = h (g and u 64-byte aligned, h aligned to
    /// its own vector: 64 bytes for float32, 32 for float16), rcx = the
    /// vectors, r8 = the shared constant block (`C_NEG_LOG2E`, `C_ONE`).
    /// Batches of four, then one at a time; branches for the loop control,
    /// since the card has no CMOV.
    #[verifier::opaque]
    pub open spec fn glu_looped(self, name: Seq<char>, out: Out) -> Listing {
        self
            .glu_head(name, "h = silu(g) * u over rcx vectors, stored "@, out.spec_word(), ""@)
            .t_imm("cmp"@, 4 as int, COUNT)
            .t("jb 2f"@)
            .lit("1:\n"@)
            .glu_body(4, out, K(0))
            .t_imm("sub"@, 4 as int, COUNT)
            .t_imm("cmp"@, 4 as int, COUNT)
            .t("jae 1b"@)
            .lit("2:\n"@)
            .test_reg(COUNT)
            .t("jz 4f"@)
            .lit("3:\n"@)
            .glu_body(1, out, K(0))
            .dec_reg(COUNT)
            .t("jnz 3b"@)
            .lit("4:\n"@)
            .t("ret"@)
            .size(name)
    }
}

impl Asm {
    /// `name(g, u, h, count, consts)`: `count` vectors, `h[i] = silu(g[i]) *
    /// u[i]`. rdi = g, rsi = u, rdx = h (g and u 64-byte aligned, h aligned to
    /// its own vector: 64 bytes for float32, 32 for float16), rcx = the
    /// vectors, r8 = the shared constant block (`C_NEG_LOG2E`, `C_ONE`).
    /// Batches of four, then one at a time; branches for the loop control,
    /// since the card has no CMOV.
    fn glu_looped(&mut self, name: &str, out: Out)
        ensures
            final(self)@ == old(self)@.glu_looped(name@, out),
    {
        reveal(Listing::glu_looped);
        self.glu_head(name, "h = silu(g) * u over rcx vectors, stored ", out.word(), "");
        self.t_imm("cmp", 4, COUNT);
        self.t("jb 2f");
        self.lit("1:\n");
        self.glu_body(4, out, K(0));
        self.t_imm("sub", 4, COUNT);
        self.t_imm("cmp", 4, COUNT);
        self.t("jae 1b");
        self.lit("2:\n");
        self.test_reg(COUNT);
        self.t("jz 4f");
        self.lit("3:\n");
        self.glu_body(1, out, K(0));
        self.dec_reg(COUNT);
        self.t("jnz 3b");
        self.lit("4:\n");
        self.t("ret");
        self.size(name);
    }
}

impl Listing {
    /// One vector under the mask in ecx (bit i: lane i is stored).
    #[verifier::opaque]
    pub open spec fn glu_edge(self, name: Seq<char>, out: Out) -> Listing {
        self
            .glu_head(name, "one vector of h = silu(g) * u, "@, out.spec_word(), ", only the lanes set in ecx"@)
            .i(InsnV::kmov_k_r32(K(1), COUNT))
            .glu_body(1, out, K(1))
            .t("ret"@)
            .size(name)
    }
}

impl Asm {
    /// One vector under the mask in ecx (bit i: lane i is stored).
    fn glu_edge(&mut self, name: &str, out: Out)
        ensures
            final(self)@ == old(self)@.glu_edge(name@, out),
    {
        reveal(Listing::glu_edge);
        self.glu_head(name, "one vector of h = silu(g) * u, ", out.word(), ", only the lanes set in ecx");
        self.i(&plain::kmov_k_r32(K(1), COUNT));
        self.glu_body(1, out, K(1));
        self.t("ret");
        self.size(name);
    }
}

impl Listing {
    /// Every entry point of the SwiGLU.
    #[verifier::opaque]
    pub open spec fn all_swiglu(self) -> Listing {
        self
            .glu_looped("phi_swiglu"@, Out::F32)
            .glu_looped("phi_swiglu16"@, Out::F16)
            .glu_edge("phi_swiglu_edge"@, Out::F32)
            .glu_edge("phi_swiglu16_edge"@, Out::F16)
    }
}

impl Asm {
    /// Every entry point of the SwiGLU.
    fn all_swiglu(&mut self)
        ensures
            final(self)@ == old(self)@.all_swiglu(),
    {
        reveal(Listing::all_swiglu);
        self.glu_looped("phi_swiglu", Out::F32);
        self.glu_looped("phi_swiglu16", Out::F16);
        self.glu_edge("phi_swiglu_edge", Out::F32);
        self.glu_edge("phi_swiglu16_edge", Out::F16);
    }
}

/// The entry points of the SwiGLU.
pub fn swiglu() -> (s: String)
    ensures
        s@ == Listing::empty().all_swiglu().s,
{
    let mut a = Asm::new();
    a.all_swiglu();
    a.0
}

} // verus!
