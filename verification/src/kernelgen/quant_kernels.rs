//! The quantized kernels whole: the lines they are written as, and what those
//! lines do when the core runs them.
use crate::kernelgen::listing::Listing;
use crate::kernelgen::machine::{lines_of, Line};
use crate::kernelgen::quant;
use crate::kernelgen::quant::{row, Act, Prep, ACC, PF_L1, PF_L2, STRIDE};
use crate::kernelgen::quant_runs;
use crate::kernelgen::quant_text;
use crate::kernelgen::vector::{Op, Two};
use crate::mvex::conv::Cache;
use crate::mvex::encode::InsnV;
use crate::mvex::reg::{Conv, Gpr, Mem, Src, Zmm};
use crate::vpu::proto::{MM_IQ4_XS, MM_Q4_K, MM_Q5_K, MM_Q6_K, MM_Q8_0};
use vstd::prelude::*;

verus! {

/// The formats there are kernels for.
pub open spec fn quantized(fmt: u32) -> bool {
    fmt == MM_Q4_K || fmt == MM_Q5_K || fmt == MM_Q6_K || fmt == MM_Q8_0 || fmt == MM_IQ4_XS
}

/// The bytes of 256 weights.
pub open spec fn block_bytes(fmt: u32) -> i32 {
    if fmt == MM_Q4_K {
        144
    } else if fmt == MM_Q5_K {
        176
    } else if fmt == MM_Q6_K {
        210
    } else if fmt == MM_Q8_0 {
        272
    } else {
        136
    }
}

/// How a format's scales are prepared.
pub open spec fn prep_of(fmt: u32) -> Prep {
    if fmt == MM_Q4_K || fmt == MM_Q5_K {
        Prep::K4
    } else if fmt == MM_Q6_K {
        Prep::Q6K
    } else if fmt == MM_Q8_0 {
        Prep::Q80
    } else {
        Prep::Iq4xs
    }
}

/// The prefetches, from the address in rax on.
pub open spec fn fetches(n: int, cache: Cache) -> Seq<Line> {
    Seq::new(
        n as nat,
        |j: int|
            Line::Fetch { insn: InsnV::vprefetch(Mem::at(Gpr::Rax, (64 * j) as i32), cache) },
    )
}

/// The superblocks ahead of this one are fetched.
pub open spec fn ahead_lines(bytes: i32) -> Seq<Line> {
    Seq::<Line>::empty().push(Line::Argument).push(
        Line::Lea { from: Gpr::Rdi, by: PF_L1 as int },
    ) + fetches((bytes + 63) / 64 + 1, Cache::L1) + Seq::<Line>::empty().push(
        Line::Lea { from: Gpr::Rax, by: PF_L2 - PF_L1 },
    ) + fetches((bytes + 63) / 64 + 1, Cache::L2)
}

/// The caller's registers that more than four rows need are saved.
pub open spec fn save_lines(t: u8) -> Seq<Line> {
    if t > 4 {
        Seq::<Line>::empty().push(Line::Push { g: Gpr::Rbx }).push(
            Line::Push { g: Gpr::R13 },
        ).push(Line::Push { g: Gpr::R14 }).push(Line::Push { g: Gpr::R15 })
    } else {
        Seq::empty()
    }
}

pub open spec fn restore_lines(t: u8) -> Seq<Line> {
    if t > 4 {
        Seq::<Line>::empty().push(Line::Pop { g: Gpr::R15 }).push(Line::Pop { g: Gpr::R14 }).push(
            Line::Pop { g: Gpr::R13 },
        ).push(Line::Pop { g: Gpr::Rbx })
    } else {
        Seq::empty()
    }
}

/// The pointers of rows 1 to `t - 1` loaded.
pub open spec fn pointer_lines(t: u8) -> Seq<Line>
    decreases t,
{
    if t <= 1 {
        Seq::empty()
    } else {
        let i = (t - 1) as u8;
        pointer_lines(i).push(Line::Pull { disp: 8 * i, base: STRIDE, to: row(i) })
    }
}

/// The accumulators loaded.
pub open spec fn ops_loaded(t: u8) -> Seq<Op> {
    Seq::new(
        t as nat,
        |j: int|
            Op::Load {
                z: Zmm(j as u8),
                m: Mem::at(ACC, (64 * j) as i32),
                conv: Conv::Plain,
            },
    )
}

/// A register cleared, and one added to another.
pub open spec fn op_clear(z: u8) -> Op {
    Op::Two { f: Two::Xor, z: Zmm(z), a: Zmm(z), b: Src::Reg(Zmm(z)), masked: false }
}

pub open spec fn op_fold(a: u8, b: u8) -> Op {
    Op::Two { f: Two::Add, z: Zmm(a), a: Zmm(a), b: Src::Reg(Zmm(b)), masked: false }
}

/// The spare accumulators of a single row cleared.
pub open spec fn ops_spare(t: u8) -> Seq<Op> {
    if t == 1 {
        Seq::<Op>::empty().push(op_clear(1)).push(op_clear(2)).push(op_clear(3))
    } else {
        Seq::empty()
    }
}

/// The accumulators of a single row added up.
pub open spec fn ops_fold(t: u8) -> Seq<Op> {
    if t == 1 {
        Seq::<Op>::empty().push(op_fold(0, 1)).push(op_fold(2, 3)).push(op_fold(0, 2))
    } else {
        Seq::empty()
    }
}

/// The accumulators stored.
pub open spec fn ops_stored(t: u8) -> Seq<Op> {
    Seq::new(
        t as nat,
        |j: int|
            Op::Store {
                m: Mem::at(ACC, (64 * j) as i32),
                z: Zmm(j as u8),
                conv: Conv::Plain,
                masked: false,
            },
    )
}

/// The two halves of a block.
pub open spec fn ops_halves(fmt: u32, t: u8, x: Act) -> Seq<Op> {
    if fmt == MM_Q4_K {
        quant_runs::q4k_ops(0, t, x) + quant_runs::q4k_ops(1, t, x)
    } else if fmt == MM_Q5_K {
        quant_runs::q5k_bits() + quant_runs::q5k_ops(0, t, x) + quant_runs::q5k_ops(1, t, x)
    } else if fmt == MM_Q6_K {
        quant_runs::q6k_ops(0, t, x) + quant_runs::q6k_ops(1, t, x)
    } else if fmt == MM_Q8_0 {
        quant_runs::q8_0_ops(0, t, x) + quant_runs::q8_0_ops(1, t, x)
    } else {
        quant_runs::iq4xs_ops(0, t, x) + quant_runs::iq4xs_ops(1, t, x)
    }
}

/// What comes before the vector instructions that compute.
pub open spec fn setup_lines(fmt: u32, t: u8) -> Seq<Line> {
    ahead_lines(block_bytes(fmt)) + save_lines(t) + quant_text::prep_lines(prep_of(fmt))
        + pointer_lines(t)
}

/// The vector instructions that compute.
pub open spec fn ops_whole(fmt: u32, t: u8, x: Act) -> Seq<Op> {
    ops_loaded(t) + ops_spare(t) + ops_halves(fmt, t, x) + ops_fold(t) + ops_stored(t)
}

/// The lines of the kernel of a format against `t` rows.
pub open spec fn kernel_lines(fmt: u32, t: u8, x: Act) -> Seq<Line> {
    (setup_lines(fmt, t) + lines_of(ops_whole(fmt, t, x)) + restore_lines(t)).push(Line::Ret)
}

/// What stands above a kernel's lines.
pub open spec fn kernel_head(l: Listing, name: Seq<char>, t: u8, what: Seq<char>) -> Listing {
    l.lit("# "@).lit(name).lit(": "@).lit(what).lit(", against "@).num(t as i32 as int).lit(
        " activation row(s)\n"@,
    ).label(name)
}

proof fn lemma_fetches(l: Listing, n: int, cache: Cache)
    requires
        0 <= n <= 64,
    ensures
        l.all(quant::prefetches(n as i32, cache)) == l.lines(fetches(n, cache)),
    decreases n,
{
    reveal(Listing::lines);
    reveal(Listing::all);
    let (a, b) = (quant::prefetches(n as i32, cache), fetches(n, cache));
    if n > 0 {
        lemma_fetches(l, n - 1, cache);
        assert(a.drop_last() =~= quant::prefetches((n - 1) as i32, cache));
        assert(b.drop_last() =~= fetches(n - 1, cache));
    }
}

proof fn lemma_ahead_text(l: Listing, bytes: i32)
    requires
        0 <= bytes <= 1024,
    ensures
        l.prefetch_ahead(bytes) == l.lines(ahead_lines(bytes)),
{
    broadcast use {Listing::lemma_push, Listing::lemma_none};

    reveal(Listing::prefetch_ahead);
    let n = (bytes + 63) / 64 + 1;
    let a = Seq::<Line>::empty().push(Line::Argument).push(
        Line::Lea { from: Gpr::Rdi, by: PF_L1 as int },
    );
    let b = fetches(n, Cache::L1);
    let c = Seq::<Line>::empty().push(Line::Lea { from: Gpr::Rax, by: PF_L2 - PF_L1 });
    let e = fetches(n, Cache::L2);
    l.lemma_lines(a, b);
    l.lemma_lines(a + b, c);
    l.lemma_lines(a + b + c, e);
    lemma_fetches(l.lines(a), n, Cache::L1);
    lemma_fetches(l.lines(a).lines(b).lines(c), n, Cache::L2);
}

proof fn lemma_pointer_text(l: Listing, t: u8)
    ensures
        l.row_pointers(t) == l.lines(pointer_lines(t)),
    decreases t,
{
    broadcast use {Listing::lemma_push, Listing::lemma_none};

    if t > 1 {
        lemma_pointer_text(l, (t - 1) as u8);
    }
}

/// The text of what comes before the halves.
proof fn lemma_prologue(l: Listing, name: Seq<char>, t: u8, what: Seq<char>, fmt: u32)
    requires
        t <= 8,
    ensures
        l.prologue(name, t, what, block_bytes(fmt), prep_of(fmt)) == kernel_head(
            l,
            name,
            t,
            what,
        ).lines(setup_lines(fmt, t)).lines(lines_of(ops_loaded(t) + ops_spare(t))),
{
    reveal(Listing::prologue);
    let h = kernel_head(l, name, t, what);
    let (a, b, c, e) = (
        ahead_lines(block_bytes(fmt)),
        save_lines(t),
        quant_text::prep_lines(prep_of(fmt)),
        pointer_lines(t),
    );
    h.lemma_lines(a, b);
    h.lemma_lines(a + b, c);
    h.lemma_lines(a + b + c, e);
    lemma_ahead_text(h, block_bytes(fmt));
    let h1 = h.lines(a);
    assert(h1.lines(b) == h1.save_rows(t)) by {
        broadcast use {Listing::lemma_push, Listing::lemma_none};

    }
    let h2 = h1.lines(b);
    quant_text::law_prep(h2, prep_of(fmt));
    let h3 = h2.lines(c);
    lemma_pointer_text(h3, t);
    let h4 = h3.lines(e);
    h4.lemma_ops(quant::acc_loads(t), ops_loaded(t));
    quant_text::lemma_cat(h4, ops_loaded(t), ops_spare(t));
    let h5 = h4.lines(lines_of(ops_loaded(t)));
    assert(h5.lines(lines_of(ops_spare(t))) == h5.spare_accs(t)) by {
        broadcast use {quant_text::lemma_written, quant_text::lemma_blank};

    }
}

/// The text of what comes after the halves.
proof fn lemma_epilogue(l: Listing, name: Seq<char>, t: u8)
    requires
        t <= 8,
    ensures
        l.epilogue(name, t) == l.lines(lines_of(ops_fold(t) + ops_stored(t))).lines(
            restore_lines(t),
        ).t("ret"@).size(name),
{
    reveal(Listing::epilogue);
    assert(l.lines(lines_of(ops_fold(t))) == l.fold_accs(t)) by {
        broadcast use {quant_text::lemma_written, quant_text::lemma_blank};

    }
    quant_text::lemma_cat(l, ops_fold(t), ops_stored(t));
    let l1 = l.lines(lines_of(ops_fold(t)));
    l1.lemma_ops(quant::acc_stores(t), ops_stored(t));
    let l2 = l1.lines(lines_of(ops_stored(t)));
    assert(l2.lines(restore_lines(t)) == l2.restore_rows(t)) by {
        broadcast use {Listing::lemma_push, Listing::lemma_none};

    }
}

/// A kernel's lines, part by part.
proof fn lemma_kernel(h: Listing, fmt: u32, t: u8, x: Act)
    ensures
        h.lines(kernel_lines(fmt, t, x)) == h.lines(setup_lines(fmt, t)).lines(
            lines_of(ops_loaded(t) + ops_spare(t)),
        ).lines(lines_of(ops_halves(fmt, t, x))).lines(
            lines_of(ops_fold(t) + ops_stored(t)),
        ).lines(restore_lines(t)).t("ret"@),
{
    let s = setup_lines(fmt, t);
    let (a, b, c) = (
        ops_loaded(t) + ops_spare(t),
        ops_halves(fmt, t, x),
        ops_fold(t) + ops_stored(t),
    );
    assert(ops_whole(fmt, t, x) =~= a + b + c);
    let w = lines_of(ops_whole(fmt, t, x));
    h.lemma_lines(s, w);
    h.lemma_lines(s + w, restore_lines(t));
    h.lemma_push(s + w + restore_lines(t), Line::Ret);
    let h1 = h.lines(s);
    quant_text::lemma_cat(h1, a, b);
    quant_text::lemma_cat(h1, a + b, c);
}

/// The text of the Q4_K kernels is that of their lines.
pub proof fn law_q4k_text(l: Listing, t: u8, x: Act)
    requires
        t <= 8,
    ensures
        ({
            let name = quant::kernel_name_of("phi_q4k_"@, t, x);
            l.q4k(t, x) == kernel_head(l, name, t, "one Q4_K superblock"@).lines(
                kernel_lines(MM_Q4_K, t, x),
            ).size(name)
        }),
{
    reveal(Listing::q4k);
    let name = quant::kernel_name_of("phi_q4k_"@, t, x);
    let what = "one Q4_K superblock"@;
    let h = kernel_head(l, name, t, what);
    lemma_prologue(l, name, t, what, MM_Q4_K);
    lemma_kernel(h, MM_Q4_K, t, x);
    let h1 = h.lines(setup_lines(MM_Q4_K, t)).lines(lines_of(ops_loaded(t) + ops_spare(t)));
    quant_text::law_q4k_half(h1, 0, t, x);
    let (a, b) = (quant_runs::q4k_ops(0, t, x), quant_runs::q4k_ops(1, t, x));
    quant_text::law_q4k_half(h1.lines(lines_of(a)), 1, t, x);
    quant_text::lemma_cat(h1, a, b);
    lemma_epilogue(h1.lines(lines_of(ops_halves(MM_Q4_K, t, x))), name, t);
}

/// The text of the Q5_K kernels is that of their lines.
pub proof fn law_q5k_text(l: Listing, t: u8, x: Act)
    requires
        t <= 8,
    ensures
        ({
            let name = quant::kernel_name_of("phi_q5k_"@, t, x);
            l.q5k(t, x) == kernel_head(l, name, t, "one Q5_K superblock"@).lines(
                kernel_lines(MM_Q5_K, t, x),
            ).size(name)
        }),
{
    reveal(Listing::q5k);
    let name = quant::kernel_name_of("phi_q5k_"@, t, x);
    let what = "one Q5_K superblock"@;
    let h = kernel_head(l, name, t, what);
    lemma_prologue(l, name, t, what, MM_Q5_K);
    lemma_kernel(h, MM_Q5_K, t, x);
    let h0 = h.lines(setup_lines(MM_Q5_K, t)).lines(lines_of(ops_loaded(t) + ops_spare(t)));
    quant_text::law_q5k_bits(h0);
    let e = quant_runs::q5k_bits();
    let h1 = h0.lines(lines_of(e));
    quant_text::law_q5k_half(h1, 0, t, x);
    let (a, b) = (quant_runs::q5k_ops(0, t, x), quant_runs::q5k_ops(1, t, x));
    quant_text::law_q5k_half(h1.lines(lines_of(a)), 1, t, x);
    quant_text::lemma_cat(h0, e, a);
    quant_text::lemma_cat(h0, e + a, b);
    lemma_epilogue(h0.lines(lines_of(ops_halves(MM_Q5_K, t, x))), name, t);
}

/// The text of the Q6_K kernels is that of their lines.
pub proof fn law_q6k_text(l: Listing, t: u8, x: Act)
    requires
        t <= 8,
    ensures
        ({
            let name = quant::kernel_name_of("phi_q6k_"@, t, x);
            l.q6k(t, x) == kernel_head(l, name, t, "one Q6_K superblock"@).lines(
                kernel_lines(MM_Q6_K, t, x),
            ).size(name)
        }),
{
    reveal(Listing::q6k);
    let name = quant::kernel_name_of("phi_q6k_"@, t, x);
    let what = "one Q6_K superblock"@;
    let h = kernel_head(l, name, t, what);
    lemma_prologue(l, name, t, what, MM_Q6_K);
    lemma_kernel(h, MM_Q6_K, t, x);
    let h1 = h.lines(setup_lines(MM_Q6_K, t)).lines(lines_of(ops_loaded(t) + ops_spare(t)));
    quant_text::law_q6k_half(h1, 0, t, x);
    let (a, b) = (quant_runs::q6k_ops(0, t, x), quant_runs::q6k_ops(1, t, x));
    quant_text::law_q6k_half(h1.lines(lines_of(a)), 1, t, x);
    quant_text::lemma_cat(h1, a, b);
    lemma_epilogue(h1.lines(lines_of(ops_halves(MM_Q6_K, t, x))), name, t);
}

/// The text of the Q8_0 kernels is that of their lines.
pub proof fn law_q8_0_text(l: Listing, t: u8, x: Act)
    requires
        t <= 8,
    ensures
        ({
            let name = quant::kernel_name_of("phi_q8_0_"@, t, x);
            l.q8_0(t, x) == kernel_head(l, name, t, "eight Q8_0 blocks"@).lines(
                kernel_lines(MM_Q8_0, t, x),
            ).size(name)
        }),
{
    reveal(Listing::q8_0);
    let name = quant::kernel_name_of("phi_q8_0_"@, t, x);
    let what = "eight Q8_0 blocks"@;
    let h = kernel_head(l, name, t, what);
    lemma_prologue(l, name, t, what, MM_Q8_0);
    lemma_kernel(h, MM_Q8_0, t, x);
    let h1 = h.lines(setup_lines(MM_Q8_0, t)).lines(lines_of(ops_loaded(t) + ops_spare(t)));
    quant_text::law_q8_0_half(h1, 0, t, x);
    let (a, b) = (quant_runs::q8_0_ops(0, t, x), quant_runs::q8_0_ops(1, t, x));
    quant_text::law_q8_0_half(h1.lines(lines_of(a)), 1, t, x);
    quant_text::lemma_cat(h1, a, b);
    lemma_epilogue(h1.lines(lines_of(ops_halves(MM_Q8_0, t, x))), name, t);
}

/// The text of the IQ4_XS kernels is that of their lines.
pub proof fn law_iq4xs_text(l: Listing, t: u8, x: Act)
    requires
        t <= 8,
    ensures
        ({
            let name = quant::kernel_name_of("phi_iq4xs_"@, t, x);
            l.iq4xs(t, x) == kernel_head(l, name, t, "one IQ4_XS superblock"@).lines(
                kernel_lines(MM_IQ4_XS, t, x),
            ).size(name)
        }),
{
    reveal(Listing::iq4xs);
    let name = quant::kernel_name_of("phi_iq4xs_"@, t, x);
    let what = "one IQ4_XS superblock"@;
    let h = kernel_head(l, name, t, what);
    lemma_prologue(l, name, t, what, MM_IQ4_XS);
    lemma_kernel(h, MM_IQ4_XS, t, x);
    let h1 = h.lines(setup_lines(MM_IQ4_XS, t)).lines(lines_of(ops_loaded(t) + ops_spare(t)));
    quant_text::law_iq4xs_half(h1, 0, t, x);
    let (a, b) = (quant_runs::iq4xs_ops(0, t, x), quant_runs::iq4xs_ops(1, t, x));
    quant_text::law_iq4xs_half(h1.lines(lines_of(a)), 1, t, x);
    quant_text::lemma_cat(h1, a, b);
    lemma_epilogue(h1.lines(lines_of(ops_halves(MM_IQ4_XS, t, x))), name, t);
}

} // verus!
