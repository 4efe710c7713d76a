//! What the quantized kernels do when the core runs them, with exact
//! arithmetic: they add to every accumulator lane the products of the block's
//! weights and the activations of its row.
use crate::kernelgen::dots;
use crate::kernelgen::dots::{accs_ok, activation, exact, is_num, num, total};
use crate::kernelgen::machine;
use crate::kernelgen::machine::{lines_of, Core, Line};
use crate::kernelgen::quant;
use crate::kernelgen::quant::{
    row, Act, Prep, ACC, BLK, CONSTS, C_BYTES, C_IDX_EXPAND, STRIDE, TAB, TAB_BYTES, TAB_SC,
};
use crate::kernelgen::quant_aligned;
use crate::kernelgen::quant_aligned::{all_run, based, blocked, rowed};
use crate::kernelgen::quant_kernels;
use crate::kernelgen::quant_kernels::{
    ahead_lines, block_bytes, fetches, kernel_lines, ops_fold, ops_halves, ops_loaded, ops_spare,
    ops_stored, ops_whole, pointer_lines, prep_of, quantized, restore_lines, save_lines,
    setup_lines,
};
use crate::kernelgen::quant_runs;
use crate::kernelgen::quant_runs::{added, holds, ready, sum, tabled, term, value, weight_at};
use crate::kernelgen::quant_tables;
use crate::kernelgen::quant_tables::{stocked, table_apart, tabling, with_rax};
use crate::kernelgen::quant_text::{lane_lines, prep_lines, small};
use crate::kernelgen::vector::{Form, Lane, Op, Two, Unit};
use crate::mvex::conv::Cache;
use crate::mvex::reg::{Gpr, Mem, Zmm};
use crate::vpu::proto::{MM_IQ4_XS, MM_Q4_K, MM_Q5_K, MM_Q6_K, MM_Q8_0};
use vstd::prelude::*;

verus! {

/// Where activation row `i` is: rsi has the first, the array the others.
pub open spec fn row_base(c: Core, i: int) -> int {
    if i == 0 {
        c.g[Gpr::Rsi]
    } else {
        (c.quad)(c.g[STRIDE] + 8 * i)
    }
}

/// Activation `16 v + l` of row `i`.
pub open spec fn input(c: Core, x: Act, i: int, v: int, l: int) -> Lane {
    match x {
        Act::F32 => (c.unit.mem)(Form::Word, row_base(c, i) + 64 * v + 4 * l),
        Act::F16 => (c.unit.mem)(Form::Half, row_base(c, i) + 32 * v + 2 * l),
    }
}

/// Accumulator lane `l` of row `i`.
pub open spec fn accumulator(u: Unit, g: Map<Gpr, int>, i: int, l: int) -> Lane {
    (u.mem)(Form::Word, g[ACC] + 64 * i + 4 * l)
}

/// The `d` of the weights of vector `v`: the block's, or for Q8_0 that of the
/// one of the eight blocks that the vector is in.
pub open spec fn factor(fmt: u32, d: spec_fn(int) -> real, v: int) -> real {
    if fmt == MM_Q8_0 {
        d(v / 2)
    } else {
        d(0)
    }
}

/// The `dmin` of a format that has one.
pub open spec fn least(fmt: u32, dmin: real) -> real {
    if fmt == MM_Q4_K || fmt == MM_Q5_K {
        dmin
    } else {
        0int as real
    }
}

/// Where the halfs of a block are, and that they hold `d` and `dmin`.
pub open spec fn factored(
    u: Unit,
    g: Map<Gpr, int>,
    fmt: u32,
    d: spec_fn(int) -> real,
    dmin: real,
) -> bool {
    if fmt == MM_Q8_0 {
        forall|i: int|
            0 <= i < 8 ==> (u.mem)(Form::Half, g[BLK] + 34 * i) == Lane::Num(#[trigger] d(i))
    } else if fmt == MM_Q6_K {
        (u.mem)(Form::Half, g[BLK] + 208) == Lane::Num(d(0))
    } else {
        &&& (u.mem)(Form::Half, g[BLK] + 0) == Lane::Num(d(0))
        &&& fmt != MM_IQ4_XS ==> (u.mem)(Form::Half, g[BLK] + 2) == Lane::Num(dmin)
    }
}

/// The constants, as their names have them.
pub open spec fn constants(u: Unit, g: Map<Gpr, int>) -> bool {
    &&& stocked(u, g)
    &&& dots::powers(u, g)
    &&& quant_runs::valued(u, g)
}

/// Whether the table is apart from what is read after it is written: the
/// constants, the block, the accumulators and the activations.
pub open spec fn table_free(c: Core, fmt: u32, t: u8, x: Act) -> bool {
    &&& table_apart(c.g, block_bytes(fmt) as int)
    &&& c.g[TAB] + TAB_BYTES <= c.g[ACC] || c.g[ACC] + 64 * t <= c.g[TAB]
    &&& forall|i: int|
        0 <= i < t ==> c.g[TAB] + TAB_BYTES <= #[trigger] row_base(c, i) || row_base(c, i) + 16
            * x.stride() <= c.g[TAB]
}

/// Whether the pointers of the rows are apart from what the kernel pushes.
pub open spec fn stack_free(c: Core, t: u8) -> bool {
    t > 4 ==> c.g[STRIDE] + 8 * t <= c.g[Gpr::Rsp] - 32 || c.g[Gpr::Rsp] <= c.g[STRIDE]
}

/// A core at the first line of a kernel, called as it has to be: with the
/// 256 weights of `blk` and with numbers for activations and accumulators.
pub open spec fn called(
    c: Core,
    fmt: u32,
    t: u8,
    x: Act,
    blk: Seq<u8>,
    d: spec_fn(int) -> real,
    dmin: real,
) -> bool {
    &&& c.at == 0 && c.ok && !c.done
    &&& quantized(fmt)
    &&& 1 <= t <= 8
    &&& exact(c.unit.ar)
    &&& blk.len() == block_bytes(fmt)
    &&& holds(c.unit, c.g, blk)
    &&& factored(c.unit, c.g, fmt, d, dmin)
    &&& constants(c.unit, c.g)
    &&& based(c.g)
    &&& blocked(c.g, fmt)
    &&& forall|i: int| 0 <= i < t ==> #[trigger] row_base(c, i) % (x.stride() as int) == 0
    &&& table_free(c, fmt, t, x)
    &&& stack_free(c, t)
    &&& forall|i: int, l: int|
        0 <= i < t && 0 <= l < 16 ==> is_num(#[trigger] accumulator(c.unit, c.g, i, l))
    &&& forall|i: int, v: int, l: int|
        0 <= i < t && 0 <= v < 16 && 0 <= l < 16 ==> is_num(#[trigger] input(c, x, i, v, l))
}

/// Weight `16 v + l` times activation `16 v + l` of row `i`.
pub open spec fn product(
    c: Core,
    fmt: u32,
    x: Act,
    blk: Seq<u8>,
    d: spec_fn(int) -> real,
    dmin: real,
    i: int,
    l: int,
) -> spec_fn(int) -> real {
    |v: int|
        value(weight_at(fmt, blk, 16 * v + l), factor(fmt, d, v), least(fmt, dmin)) * num(
            input(c, x, i, v, l),
        )
}

/// Whether a general register has a row's pointer loaded.
spec fn pointed(r: Gpr, t: u8) -> bool {
    ||| t > 1 && r == Gpr::R10
    ||| t > 2 && r == Gpr::R11
    ||| t > 3 && r == Gpr::Rax
    ||| t > 4 && r == Gpr::Rbx
    ||| t > 5 && r == Gpr::R13
    ||| t > 6 && r == Gpr::R14
    ||| t > 7 && r == Gpr::R15
}

proof fn lemma_fetches(c: Core, n: int, cache: Cache)
    requires
        0 <= n,
    ensures
        c.passed(fetches(n, cache)) == c,
    decreases n,
{
    if n > 0 {
        assert(fetches(n, cache).drop_last() =~= fetches(n - 1, cache));
        lemma_fetches(c, n - 1, cache);
    }
}

proof fn lemma_ahead(c: Core, bytes: i32)
    requires
        0 <= bytes,
    ensures
        ({
            let n = c.passed(ahead_lines(bytes));
            &&& n == (Core { g: n.g, ..c })
            &&& forall|r: Gpr| r != Gpr::Rax && r != Gpr::R11 ==> #[trigger] n.g[r] == c.g[r]
        }),
{
    let m = (bytes + 63) / 64 + 1;
    let a = Seq::<Line>::empty().push(Line::Argument).push(
        Line::Lea { from: Gpr::Rdi, by: quant::PF_L1 as int },
    );
    let b = fetches(m, Cache::L1);
    let e = Seq::<Line>::empty().push(
        Line::Lea { from: Gpr::Rax, by: quant::PF_L2 - quant::PF_L1 },
    );
    let f = fetches(m, Cache::L2);
    c.lemma_passed(a, b);
    c.lemma_passed(a + b, e);
    c.lemma_passed(a + b + e, f);
    let c1 = c.passed(a);
    lemma_fetches(c1, m, Cache::L1);
    let c2 = c1.passed(e);
    lemma_fetches(c2, m, Cache::L2);
    assert(c1 == (Core { g: c1.g, ..c }) && c2 == (Core { g: c2.g, ..c }) && (forall|r: Gpr|
        r != Gpr::Rax && r != Gpr::R11 ==> #[trigger] c2.g[r] == c.g[r])) by {
        broadcast use Core::lemma_pass;

    }
}

/// What is on the stack after the caller's registers are saved.
spec fn saved(c: Core, n: Core) -> bool {
    let s = c.g[Gpr::Rsp];
    &&& n == (Core { g: n.g, quad: n.quad, ..c })
    &&& n.g[Gpr::Rsp] == s - 32
    &&& forall|r: Gpr| r != Gpr::Rsp ==> #[trigger] n.g[r] == c.g[r]
    &&& (n.quad)(s - 8) == c.g[Gpr::Rbx]
    &&& (n.quad)(s - 16) == c.g[Gpr::R13]
    &&& (n.quad)(s - 24) == c.g[Gpr::R14]
    &&& (n.quad)(s - 32) == c.g[Gpr::R15]
    &&& forall|a: int| a < s - 32 || s <= a ==> #[trigger] (n.quad)(a) == (c.quad)(a)
}

proof fn lemma_save(c: Core, t: u8)
    ensures
        t <= 4 ==> c.passed(save_lines(t)) == c,
        t > 4 ==> saved(c, c.passed(save_lines(t))),
{
    broadcast use Core::lemma_pass;

    if t > 4 {
        let c1 = c.ran(Line::Push { g: Gpr::Rbx });
        let c2 = c1.ran(Line::Push { g: Gpr::R13 });
        let c3 = c2.ran(Line::Push { g: Gpr::R14 });
        let c4 = c3.ran(Line::Push { g: Gpr::R15 });
        assert(c.passed(save_lines(t)) == c4);
        assert(c4 == (Core { g: c4.g, quad: c4.quad, ..c }));
    }
}

proof fn lemma_restore(c: Core, t: u8)
    ensures
        ({
            let n = c.passed(restore_lines(t));
            let s = c.g[Gpr::Rsp];
            &&& n == (Core { g: n.g, ..c })
            &&& t <= 4 ==> n == c
            &&& t > 4 ==> n.g[Gpr::Rsp] == s + 32 && n.g[Gpr::R15] == (c.quad)(s)
                && n.g[Gpr::R14] == (c.quad)(s + 8) && n.g[Gpr::R13] == (c.quad)(s + 16)
                && n.g[Gpr::Rbx] == (c.quad)(s + 24)
            &&& forall|r: Gpr|
                r != Gpr::Rsp && r != Gpr::Rbx && r != Gpr::R13 && r != Gpr::R14 && r != Gpr::R15
                    ==> #[trigger] n.g[r] == c.g[r]
        }),
{
    broadcast use Core::lemma_pass;

    if t > 4 {
        let c1 = c.ran(Line::Pop { g: Gpr::R15 });
        let c2 = c1.ran(Line::Pop { g: Gpr::R14 });
        let c3 = c2.ran(Line::Pop { g: Gpr::R13 });
        let c4 = c3.ran(Line::Pop { g: Gpr::Rbx });
        assert(c.passed(restore_lines(t)) == c4);
        assert(c4 == (Core { g: c4.g, ..c }));
    }
}

proof fn lemma_pointers(c: Core, t: u8)
    requires
        t <= 8,
    ensures
        ({
            let n = c.passed(pointer_lines(t));
            &&& n == (Core { g: n.g, ..c })
            &&& forall|r: Gpr| !pointed(r, t) ==> #[trigger] n.g[r] == c.g[r]
            &&& forall|i: int|
                1 <= i < t ==> #[trigger] n.g[row(i as u8)] == (c.quad)(c.g[STRIDE] + 8 * i)
        }),
    decreases t,
{
    if t > 1 {
        let i = (t - 1) as u8;
        lemma_pointers(c, i);
        let line = Line::Pull { disp: 8 * i, base: STRIDE, to: row(i) };
        c.lemma_pass(pointer_lines(i), line);
        let m = c.passed(pointer_lines(i));
        let n = c.passed(pointer_lines(t));
        assert(n == m.ran(line));
        assert forall|k: int| 1 <= k < t implies #[trigger] n.g[row(k as u8)] == (c.quad)(
            c.g[STRIDE] + 8 * k,
        ) by {
            if k < i {
                assert(m.g[row(k as u8)] == (c.quad)(c.g[STRIDE] + 8 * k));
                assert(row(k as u8) != row(i));
            }
        }
    }
}

/// What a preparation leaves: the table filled, and rax.
spec fn prepared(
    c: Core,
    n: Core,
    fmt: u32,
    blk: Seq<u8>,
    d: spec_fn(int) -> real,
    dmin: real,
) -> bool {
    &&& n == (Core { g: n.g, unit: n.unit, ..c })
    &&& forall|r: Gpr| r != Gpr::Rax ==> #[trigger] n.g[r] == c.g[r]
    &&& tabling(c.unit, n.unit, c.g)
    &&& tabled(n.unit, c.g, fmt, blk, |v: int| factor(fmt, d, v), least(fmt, dmin))
}

/// Instructions of the vector unit, with a number in rax.
proof fn lemma_ops(c: Core, ops: Seq<Op>)
    requires
        all_run(ops, c.g),
    ensures
        c.passed(lines_of(ops)) == (Core { unit: c.unit.all(ops, c.g), ..c }),
{
    c.lemma_unit(ops);
}

proof fn lemma_small(c: Core, n: int)
    ensures
        c.passed(small(n)) == (Core { g: with_rax(c.g, n), ..c }),
{
    c.lemma_pass(Seq::empty(), Line::Small { n });
}

/// A number in rax takes the place of another.
proof fn lemma_rax(g: Map<Gpr, int>, m: int, n: int)
    ensures
        with_rax(with_rax(g, m), n) == with_rax(g, n),
        based(g) ==> based(with_rax(g, n)),
{
    assert(with_rax(with_rax(g, m), n) =~= with_rax(g, n));
}

/// The table does not depend on how the scales are given.
proof fn lemma_tabled(
    u: Unit,
    g: Map<Gpr, int>,
    fmt: u32,
    blk: Seq<u8>,
    d: spec_fn(int) -> real,
    e: spec_fn(int) -> real,
    dmin: real,
)
    requires
        tabled(u, g, fmt, blk, d, dmin),
        forall|v: int| 0 <= v < 16 ==> #[trigger] d(v) == e(v),
    ensures
        tabled(u, g, fmt, blk, e, dmin),
{
    assert forall|v: int| 0 <= v < 16 implies #[trigger] dots::scale_at(u, g, v) == Lane::Num(
        e(v) * (weight_at(fmt, blk, 16 * v).scale as real),
    ) && (quant_runs::minuend(fmt) ==> dots::minuend_at(u, g, v) == Lane::Num(
        least_of(fmt, blk, e, dmin, v),
    )) by {
        assert(d(v) == e(v));
    }
}

spec fn least_of(
    fmt: u32,
    blk: Seq<u8>,
    e: spec_fn(int) -> real,
    dmin: real,
    v: int,
) -> real {
    dmin * (weight_at(fmt, blk, 16 * v).min as real) + e(v) * (weight_at(
        fmt,
        blk,
        16 * v,
    ).scale as real) * (quant_runs::bias(fmt) as real)
}

proof fn lemma_prepared_k4(
    c: Core,
    fmt: u32,
    blk: Seq<u8>,
    d: spec_fn(int) -> real,
    dmin: real,
)
    requires
        fmt == MM_Q4_K || fmt == MM_Q5_K,
        exact(c.unit.ar),
        blk.len() == block_bytes(fmt),
        holds(c.unit, c.g, blk),
        factored(c.unit, c.g, fmt, d, dmin),
        stocked(c.unit, c.g),
        table_apart(c.g, blk.len() as int),
        based(c.g),
    ensures
        prepared(c, c.passed(prep_lines(Prep::K4)), fmt, blk, d, dmin),
{
    let p1 = lines_of(quant_tables::ops_k4_forms());
    let p2 = lines_of(quant_tables::ops_kept(20));
    let last = quant_tables::ops_kept(21) + quant_tables::ops_k4_scaled()
        + quant_tables::ops_k4_table();
    let p3 = lines_of(last);
    c.lemma_passed(p1, small(240));
    c.lemma_passed(p1 + small(240), p2);
    c.lemma_passed(p1 + small(240) + p2, small(61440));
    c.lemma_passed(p1 + small(240) + p2 + small(61440), p3);
    lemma_rax(c.g, 0, 240);
    lemma_rax(c.g, 240, 61440);
    quant_aligned::lemma_k4(c.g);
    quant_aligned::lemma_k4(with_rax(c.g, 240));
    quant_aligned::lemma_k4(with_rax(c.g, 61440));
    lemma_ops(c, quant_tables::ops_k4_forms());
    let c1 = c.passed(p1);
    lemma_small(c1, 240);
    let c2 = c1.passed(small(240));
    lemma_ops(c2, quant_tables::ops_kept(20));
    let c3 = c2.passed(p2);
    lemma_small(c3, 61440);
    let c4 = c3.passed(small(61440));
    lemma_ops(c4, last);
    let c5 = c4.passed(p3);
    assert(c5.unit == quant_tables::after_k4(c.unit, c.g));
    quant_tables::lemma_prep_k4(c.unit, c.g, fmt, blk, d(0), dmin);
    lemma_tabled(
        c5.unit,
        c.g,
        fmt,
        blk,
        |v: int| d(0),
        |v: int| factor(fmt, d, v),
        dmin,
    );
}

proof fn lemma_prepared_q6k(c: Core, blk: Seq<u8>, d: spec_fn(int) -> real, dmin: real)
    requires
        exact(c.unit.ar),
        blk.len() == 210,
        holds(c.unit, c.g, blk),
        factored(c.unit, c.g, MM_Q6_K, d, dmin),
        stocked(c.unit, c.g),
        table_apart(c.g, 210),
        based(c.g),
    ensures
        prepared(c, c.passed(prep_lines(Prep::Q6K)), MM_Q6_K, blk, d, dmin),
{
    quant_aligned::lemma_prep_q6k(c.g);
    lemma_ops(c, quant_tables::ops_q6k());
    quant_tables::lemma_prep_q6k(c.unit, c.g, blk, d(0));
    lemma_tabled(
        c.unit.all(quant_tables::ops_q6k(), c.g),
        c.g,
        MM_Q6_K,
        blk,
        |v: int| d(0),
        |v: int| factor(MM_Q6_K, d, v),
        0int as real,
    );
}

proof fn lemma_prepared_iq4xs(c: Core, blk: Seq<u8>, d: spec_fn(int) -> real, dmin: real)
    requires
        exact(c.unit.ar),
        blk.len() == 136,
        holds(c.unit, c.g, blk),
        factored(c.unit, c.g, MM_IQ4_XS, d, dmin),
        stocked(c.unit, c.g),
        table_apart(c.g, 136),
        based(c.g),
    ensures
        prepared(c, c.passed(prep_lines(Prep::Iq4xs)), MM_IQ4_XS, blk, d, dmin),
{
    quant_aligned::lemma_prep_iq4xs(c.g);
    lemma_ops(c, quant_tables::ops_iq4xs());
    quant_tables::lemma_prep_iq4xs(c.unit, c.g, blk, d(0));
    lemma_tabled(
        c.unit.all(quant_tables::ops_iq4xs(), c.g),
        c.g,
        MM_IQ4_XS,
        blk,
        |v: int| d(0),
        |v: int| factor(MM_IQ4_XS, d, v),
        0int as real,
    );
}

proof fn lemma_lanes(c: Core, n: int)
    requires
        0 <= n <= 8,
    ensures
        c.passed(lane_lines(n)) == (Core {
            g: if n == 0 {
                c.g
            } else {
                with_rax(c.g, quant_tables::lane_mask(n - 1))
            },
            unit: quant_tables::after_lanes(c.unit, c.g, n),
            ..c
        }),
    decreases n,
{
    reveal(lane_lines);
    if n > 0 {
        lemma_lanes(c, n - 1);
        let m = quant_tables::lane_mask(n - 1);
        let a = lane_lines(n - 1);
        let ops = quant_tables::ops_q8_0_lane(n - 1);
        c.lemma_passed(a, small(m));
        c.lemma_passed(a + small(m), lines_of(ops));
        let c1 = c.passed(a);
        lemma_small(c1, m);
        if n > 1 {
            lemma_rax(c.g, quant_tables::lane_mask(n - 2), m);
        }
        let c2 = c1.passed(small(m));
        assert(c2.g == with_rax(c.g, m));
        quant_aligned::lemma_lane(n - 1, c2.g);
        lemma_ops(c2, ops);
    }
}

proof fn lemma_prepared_q8_0(c: Core, blk: Seq<u8>, d: spec_fn(int) -> real, dmin: real)
    requires
        exact(c.unit.ar),
        blk.len() == 272,
        factored(c.unit, c.g, MM_Q8_0, d, dmin),
        stocked(c.unit, c.g),
        table_apart(c.g, 272),
        based(c.g),
    ensures
        prepared(c, c.passed(prep_lines(Prep::Q80)), MM_Q8_0, blk, d, dmin),
{
    let op = quant_tables::op_two(Two::Xor, 16, 16, 16);
    let a = Seq::<Op>::empty().push(op);
    let e = quant_tables::ops_expanded(16, C_IDX_EXPAND, TAB_SC);
    c.lemma_passed(lines_of(a), lane_lines(8));
    c.lemma_passed(lines_of(a) + lane_lines(8), lines_of(e));
    lemma_ops(c, a);
    c.unit.lemma_push(Seq::empty(), op, c.g);
    let c1 = c.passed(lines_of(a));
    assert(c1.unit == c.unit.did(op, c.g));
    lemma_lanes(c1, 8);
    let c2 = c1.passed(lane_lines(8));
    lemma_rax(c.g, 0, 128);
    assert(c2.g == with_rax(c.g, 128));
    quant_aligned::lemma_expanded(16, C_IDX_EXPAND, TAB_SC, c2.g);
    lemma_ops(c2, e);
    let c3 = c2.passed(lines_of(e));
    assert(c3.unit == quant_tables::after_q8_0(c.unit, c.g));
    quant_tables::lemma_prep_q8_0(c.unit, c.g, blk, d);
    lemma_tabled(
        c3.unit,
        c.g,
        MM_Q8_0,
        blk,
        |v: int| d(v / 2),
        |v: int| factor(MM_Q8_0, d, v),
        0int as real,
    );
}

/// The preparations.
proof fn lemma_prepared(c: Core, fmt: u32, blk: Seq<u8>, d: spec_fn(int) -> real, dmin: real)
    requires
        quantized(fmt),
        exact(c.unit.ar),
        blk.len() == block_bytes(fmt),
        holds(c.unit, c.g, blk),
        factored(c.unit, c.g, fmt, d, dmin),
        stocked(c.unit, c.g),
        table_apart(c.g, block_bytes(fmt) as int),
        based(c.g),
    ensures
        prepared(c, c.passed(prep_lines(prep_of(fmt))), fmt, blk, d, dmin),
{
    if fmt == MM_Q4_K || fmt == MM_Q5_K {
        lemma_prepared_k4(c, fmt, blk, d, dmin);
    } else if fmt == MM_Q6_K {
        lemma_prepared_q6k(c, blk, d, dmin);
    } else if fmt == MM_Q8_0 {
        lemma_prepared_q8_0(c, blk, d, dmin);
    } else {
        lemma_prepared_iq4xs(c, blk, d, dmin);
    }
}

/// The accumulators after they are loaded.
proof fn lemma_start(u: Unit, g: Map<Gpr, int>, t: u8)
    requires
        1 <= t <= 8,
        exact(u.ar),
        forall|i: int, l: int|
            0 <= i < t && 0 <= l < 16 ==> is_num(#[trigger] accumulator(u, g, i, l)),
    ensures
        ({
            let n = u.all(ops_loaded(t) + ops_spare(t), g);
            &&& n == (Unit { z: n.z, ..u })
            &&& forall|l: int| 0 <= l < 16 ==> #[trigger] accs_ok(n, t, l)
            &&& forall|i: int, l: int|
                0 <= i < t && 0 <= l < 16 ==> #[trigger] total(n, t, i, l) == num(
                    accumulator(u, g, i, l),
                )
        }),
{
    broadcast use {Mem::lemma_at, Unit::lemma_push};

    let ops = ops_loaded(t);
    u.lemma_parts(ops, ops_spare(t), g);
    assert forall|i: int, j: int| 0 <= i < j < ops.len() implies !(#[trigger] ops[j]).reads(
        (#[trigger] ops[i]).dest()->0,
    ) && ops[i].dest() != ops[j].dest() by {}
    u.lemma_each(ops, g);
    let v = u.all(ops, g);
    assert forall|i: int, l: int| 0 <= i < t && 0 <= l < 16 implies #[trigger] v.z[Zmm(
        i as u8,
    )][l] == accumulator(u, g, i, l) by {
        assert(ops[i].dest()->0 == Zmm(i as u8));
    }
    let n = u.all(ops + ops_spare(t), g);
    if t == 1 {
        let v1 = v.did(quant_kernels::op_clear(1), g);
        let v2 = v1.did(quant_kernels::op_clear(2), g);
        let v3 = v2.did(quant_kernels::op_clear(3), g);
        assert(n == v3);
        assert forall|l: int| 0 <= l < 16 implies #[trigger] v3.z[Zmm(1)][l] == Lane::Bits(0)
            && v3.z[Zmm(2)][l] == Lane::Bits(0) && v3.z[Zmm(3)][l] == Lane::Bits(0)
            && v3.z[Zmm(0)][l] == accumulator(u, g, 0, l) by {
            assert(v.z[Zmm(0u8)][l] == accumulator(u, g, 0, l));
        }
        assert forall|l: int| 0 <= l < 16 implies #[trigger] accs_ok(n, t, l) by {
            assert forall|r: Zmm| r.0 < dots::accs(t) implies is_num(#[trigger] n.z[r][l]) by {
                assert(v3.z[Zmm(1)][l] == Lane::Bits(0));
                assert(is_num(accumulator(u, g, 0, l)));
                assert(r == Zmm(0) || r == Zmm(1) || r == Zmm(2) || r == Zmm(3));
            }
        }
        assert forall|i: int, l: int| 0 <= i < t && 0 <= l < 16 implies #[trigger] total(
            n,
            t,
            i,
            l,
        ) == num(accumulator(u, g, i, l)) by {
            assert(v3.z[Zmm(1)][l] == Lane::Bits(0));
        }
    } else {
        assert(n == v);
        assert forall|l: int| 0 <= l < 16 implies #[trigger] accs_ok(n, t, l) by {
            assert forall|r: Zmm| r.0 < dots::accs(t) implies is_num(#[trigger] n.z[r][l]) by {
                let i = r.0 as int;
                assert(r == Zmm(i as u8));
                assert(is_num(accumulator(u, g, i, l)));
            }
        }
        assert forall|i: int, l: int| 0 <= i < t && 0 <= l < 16 implies #[trigger] total(
            n,
            t,
            i,
            l,
        ) == num(accumulator(u, g, i, l)) by {
            assert(v.z[Zmm(i as u8)][l] == accumulator(u, g, i, l));
        }
    }
}

/// What stores of the accumulators leave in memory.
proof fn lemma_stores(u: Unit, g: Map<Gpr, int>, t: u8, m: int)
    requires
        0 <= m <= t <= 8,
    ensures
        ({
            let n = u.all(ops_stored(t).take(m), g);
            &&& n == (Unit { mem: n.mem, ..u })
            &&& forall|i: int, l: int|
                0 <= i < m && 0 <= l < 16 ==> #[trigger] accumulator(n, g, i, l) == u.z[Zmm(
                    i as u8,
                )][l]
            &&& forall|f: Form, b: int|
                b + f.width() <= g[ACC] || g[ACC] + 64 * m <= b ==> #[trigger] (n.mem)(f, b) == (
                u.mem)(f, b)
        }),
    decreases m,
{
    broadcast use Mem::lemma_at;

    let ops = ops_stored(t);
    if m > 0 {
        lemma_stores(u, g, t, m - 1);
        let v = u.all(ops.take(m - 1), g);
        let n = u.all(ops.take(m), g);
        assert(ops.take(m) =~= ops.take(m - 1).push(ops[m - 1]));
        u.lemma_push(ops.take(m - 1), ops[m - 1], g);
        assert(n == v.did(ops[m - 1], g));
        assert forall|i: int, l: int| 0 <= i < m && 0 <= l < 16 implies #[trigger] accumulator(
            n,
            g,
            i,
            l,
        ) == u.z[Zmm(i as u8)][l] by {
            if i < m - 1 {
                assert(accumulator(v, g, i, l) == u.z[Zmm(i as u8)][l]);
            }
        }
        assert forall|f: Form, b: int|
            b + f.width() <= g[ACC] || g[ACC] + 64 * m <= b implies #[trigger] (n.mem)(f, b) == (
        u.mem)(f, b) by {
            assert((v.mem)(f, b) == (u.mem)(f, b));
        }
    } else {
        assert(ops.take(0) =~= Seq::<Op>::empty());
    }
}

/// The accumulators folded and stored.
proof fn lemma_finish(u: Unit, g: Map<Gpr, int>, t: u8)
    requires
        1 <= t <= 8,
        exact(u.ar),
        forall|l: int| 0 <= l < 16 ==> #[trigger] accs_ok(u, t, l),
    ensures
        ({
            let n = u.all(ops_fold(t) + ops_stored(t), g);
            &&& n == (Unit { mem: n.mem, z: n.z, ..u })
            &&& forall|i: int, l: int|
                0 <= i < t && 0 <= l < 16 ==> is_num(#[trigger] accumulator(n, g, i, l)) && num(
                    accumulator(n, g, i, l),
                ) == total(u, t, i, l)
            &&& forall|f: Form, b: int|
                b + f.width() <= g[ACC] || g[ACC] + 64 * t <= b ==> #[trigger] (n.mem)(f, b) == (
                u.mem)(f, b)
        }),
{
    broadcast use Unit::lemma_push;

    u.lemma_parts(ops_fold(t), ops_stored(t), g);
    let v = u.all(ops_fold(t), g);
    assert(v == (Unit { z: v.z, ..u }) && (forall|i: int, l: int|
        0 <= i < t && 0 <= l < 16 ==> is_num(#[trigger] v.z[Zmm(i as u8)][l]) && num(
            v.z[Zmm(i as u8)][l],
        ) == total(u, t, i, l))) by {
        if t == 1 {
            let v1 = u.did(quant_kernels::op_fold(0, 1), g);
            let v2 = v1.did(quant_kernels::op_fold(2, 3), g);
            let v3 = v2.did(quant_kernels::op_fold(0, 2), g);
            assert(v == v3);
            assert forall|i: int, l: int| 0 <= i < t && 0 <= l < 16 implies is_num(
                #[trigger] v.z[Zmm(i as u8)][l],
            ) && num(v.z[Zmm(i as u8)][l]) == total(u, t, i, l) by {
                assert(accs_ok(u, t, l));
                assert(is_num(u.z[Zmm(0)][l]) && is_num(u.z[Zmm(1)][l]) && is_num(
                    u.z[Zmm(2)][l],
                ) && is_num(u.z[Zmm(3)][l]));
            }
        } else {
            assert(v == u);
            assert forall|i: int, l: int| 0 <= i < t && 0 <= l < 16 implies is_num(
                #[trigger] v.z[Zmm(i as u8)][l],
            ) && num(v.z[Zmm(i as u8)][l]) == total(u, t, i, l) by {
                assert(accs_ok(u, t, l));
            }
        }
    }
    lemma_stores(v, g, t, t as int);
    assert(ops_stored(t).take(t as int) =~= ops_stored(t));
    let n = u.all(ops_fold(t) + ops_stored(t), g);
    assert forall|i: int, l: int| 0 <= i < t && 0 <= l < 16 implies is_num(
        #[trigger] accumulator(n, g, i, l),
    ) && num(accumulator(n, g, i, l)) == total(u, t, i, l) by {
        assert(accumulator(n, g, i, l) == v.z[Zmm(i as u8)][l]);
    }
}

/// Sums of equal terms.
proof fn lemma_sum(f: spec_fn(int) -> real, h: spec_fn(int) -> real, n: int)
    requires
        forall|v: int| 0 <= v < n ==> #[trigger] f(v) == h(v),
    ensures
        sum(f, n) == sum(h, n),
    decreases n,
{
    if n > 0 {
        lemma_sum(f, h, n - 1);
        assert(f(n - 1) == h(n - 1));
    }
}

/// The same memory holds the same table.
proof fn lemma_table(
    u: Unit,
    w: Unit,
    g: Map<Gpr, int>,
    h: Map<Gpr, int>,
    fmt: u32,
    blk: Seq<u8>,
    d: spec_fn(int) -> real,
    dmin: real,
)
    requires
        tabled(u, g, fmt, blk, d, dmin),
        w.mem == u.mem,
        h[TAB] == g[TAB],
    ensures
        tabled(w, h, fmt, blk, d, dmin),
{
    assert forall|v: int| 0 <= v < 16 implies #[trigger] dots::scale_at(w, h, v) == Lane::Num(
        d(v) * (weight_at(fmt, blk, 16 * v).scale as real),
    ) && (quant_runs::minuend(fmt) ==> dots::minuend_at(w, h, v) == Lane::Num(
        least_of(fmt, blk, d, dmin, v),
    )) by {
        assert(dots::scale_at(w, h, v) == dots::scale_at(u, g, v));
    }
}

/// What the halves leave.
spec fn summed(
    u: Unit,
    n: Unit,
    g: Map<Gpr, int>,
    fmt: u32,
    blk: Seq<u8>,
    d: spec_fn(int) -> real,
    dmin: real,
    t: u8,
    x: Act,
    l: int,
) -> bool {
    &&& n == (Unit { z: n.z, ..u })
    &&& accs_ok(n, t, l)
    &&& forall|i: int|
        0 <= i < t ==> #[trigger] total(n, t, i, l) == total(u, t, i, l) + sum(
            term(u, g, fmt, blk, d, dmin, x, i, l),
            16,
        )
}

/// The second half adds to the first.
proof fn lemma_two(
    u: Unit,
    m: Unit,
    n: Unit,
    g: Map<Gpr, int>,
    fmt: u32,
    blk: Seq<u8>,
    d: spec_fn(int) -> real,
    dmin: real,
    t: u8,
    x: Act,
    l: int,
)
    requires
        added(u, m, g, fmt, blk, d, dmin, 0, t, x, l),
        added(m, n, g, fmt, blk, d, dmin, 1, t, x, l),
    ensures
        summed(u, n, g, fmt, blk, d, dmin, t, x, l),
{
    assert forall|i: int| 0 <= i < t implies #[trigger] total(n, t, i, l) == total(u, t, i, l)
        + sum(term(u, g, fmt, blk, d, dmin, x, i, l), 16) by {
        let (f, h) = (
            term(u, g, fmt, blk, d, dmin, x, i, l),
            term(m, g, fmt, blk, d, dmin, x, i, l),
        );
        assert forall|v: int| 0 <= v < 16 implies #[trigger] h(v) == f(v) by {}
        lemma_sum(h, f, 16);
        lemma_sum(h, f, 8);
        assert(sum(f, 0) == 0int as real);
        assert(total(m, t, i, l) == total(u, t, i, l) + sum(f, 8) - sum(f, 0));
    }
}

/// What the halves need of memory.
spec fn supplied(
    u: Unit,
    g: Map<Gpr, int>,
    fmt: u32,
    blk: Seq<u8>,
    d: spec_fn(int) -> real,
    dmin: real,
) -> bool {
    &&& holds(u, g, blk)
    &&& blk.len() == block_bytes(fmt)
    &&& dots::powers(u, g)
    &&& quant_runs::valued(u, g)
    &&& tabled(u, g, fmt, blk, d, dmin)
}

/// The same memory supplies the same.
proof fn lemma_supply(
    u: Unit,
    w: Unit,
    g: Map<Gpr, int>,
    fmt: u32,
    blk: Seq<u8>,
    d: spec_fn(int) -> real,
    dmin: real,
)
    requires
        supplied(u, g, fmt, blk, d, dmin),
        w.mem == u.mem,
    ensures
        supplied(w, g, fmt, blk, d, dmin),
{
    lemma_table(u, w, g, g, fmt, blk, d, dmin);
}

/// After other vector registers the same is ready.
proof fn lemma_still(u: Unit, n: Unit, g: Map<Gpr, int>, t: u8, x: Act, l: int)
    requires
        ready(u, g, t, x, l),
        n == (Unit { z: n.z, ..u }),
        accs_ok(n, t, l),
    ensures
        ready(n, g, t, x, l),
{
    assert forall|i: int, v: int| 0 <= i < t && 0 <= v < 16 implies is_num(
        #[trigger] activation(n, g, x, i, v, l),
    ) by {
        assert(activation(n, g, x, i, v, l) == activation(u, g, x, i, v, l));
    }
}

proof fn lemma_splitting(u: Unit, g: Map<Gpr, int>)
    requires
        dots::powers(u, g),
    ensures
        quant_runs::splitting(u, g),
{
    reveal_with_fuel(dots::pow, 5);
    assert(dots::pow(4) == 16);
}

proof fn lemma_halves_q5k(
    u: Unit,
    g: Map<Gpr, int>,
    blk: Seq<u8>,
    d: spec_fn(int) -> real,
    dmin: real,
    t: u8,
    x: Act,
    l: int,
)
    requires
        supplied(u, g, MM_Q5_K, blk, d, dmin),
        ready(u, g, t, x, l),
    ensures
        summed(u, u.all(ops_halves(MM_Q5_K, t, x), g), g, MM_Q5_K, blk, d, dmin, t, x, l),
{
    lemma_splitting(u, g);
    let (a, b, e) = (
        quant_runs::q5k_bits(),
        quant_runs::q5k_ops(0, t, x),
        quant_runs::q5k_ops(1, t, x),
    );
    u.lemma_parts(a, b, g);
    u.lemma_parts(a + b, e, g);
    quant_runs::lemma_q5k_bits(u, g, blk);
    let w = u.all(a, g);
    assert(accs_ok(w, t, l)) by {
        assert forall|r: Zmm| r.0 < dots::accs(t) implies is_num(#[trigger] w.z[r][l]) by {
            assert(w.z[r] == u.z[r]);
            assert(is_num(u.z[r][l]));
        }
    }
    lemma_still(u, w, g, t, x, l);
    lemma_supply(u, w, g, MM_Q5_K, blk, d, dmin);
    lemma_splitting(w, g);
    quant_runs::lemma_q5k_half(w, g, blk, d, dmin, 0, t, x, l);
    let m = w.all(b, g);
    lemma_still(w, m, g, t, x, l);
    lemma_supply(w, m, g, MM_Q5_K, blk, d, dmin);
    lemma_splitting(m, g);
    quant_runs::lemma_q5k_half(m, g, blk, d, dmin, 1, t, x, l);
    let n = m.all(e, g);
    lemma_two(w, m, n, g, MM_Q5_K, blk, d, dmin, t, x, l);
    assert forall|i: int| 0 <= i < t implies #[trigger] total(n, t, i, l) == total(u, t, i, l)
        + sum(term(u, g, MM_Q5_K, blk, d, dmin, x, i, l), 16) by {
        let (f, h) = (
            term(u, g, MM_Q5_K, blk, d, dmin, x, i, l),
            term(w, g, MM_Q5_K, blk, d, dmin, x, i, l),
        );
        assert forall|v: int| 0 <= v < 16 implies #[trigger] h(v) == f(v) by {}
        lemma_sum(h, f, 16);
        assert(total(w, t, i, l) == total(u, t, i, l));
    }
}

proof fn lemma_halves_q4k(
    u: Unit,
    g: Map<Gpr, int>,
    blk: Seq<u8>,
    d: spec_fn(int) -> real,
    dmin: real,
    t: u8,
    x: Act,
    l: int,
)
    requires
        supplied(u, g, MM_Q4_K, blk, d, dmin),
        ready(u, g, t, x, l),
    ensures
        summed(u, u.all(ops_halves(MM_Q4_K, t, x), g), g, MM_Q4_K, blk, d, dmin, t, x, l),
{
    lemma_splitting(u, g);
    let (a, b) = (quant_runs::q4k_ops(0, t, x), quant_runs::q4k_ops(1, t, x));
    u.lemma_parts(a, b, g);
    quant_runs::lemma_q4k_half(u, g, blk, d, dmin, 0, t, x, l);
    let m = u.all(a, g);
    lemma_still(u, m, g, t, x, l);
    lemma_supply(u, m, g, MM_Q4_K, blk, d, dmin);
    lemma_splitting(m, g);
    quant_runs::lemma_q4k_half(m, g, blk, d, dmin, 1, t, x, l);
    lemma_two(u, m, m.all(b, g), g, MM_Q4_K, blk, d, dmin, t, x, l);
}

proof fn lemma_halves_q6k(
    u: Unit,
    g: Map<Gpr, int>,
    blk: Seq<u8>,
    d: spec_fn(int) -> real,
    dmin: real,
    t: u8,
    x: Act,
    l: int,
)
    requires
        supplied(u, g, MM_Q6_K, blk, d, dmin),
        ready(u, g, t, x, l),
    ensures
        summed(u, u.all(ops_halves(MM_Q6_K, t, x), g), g, MM_Q6_K, blk, d, dmin, t, x, l),
{
    lemma_splitting(u, g);
    let (a, b) = (quant_runs::q6k_ops(0, t, x), quant_runs::q6k_ops(1, t, x));
    u.lemma_parts(a, b, g);
    quant_runs::lemma_q6k_half(u, g, blk, d, dmin, 0, t, x, l);
    let m = u.all(a, g);
    lemma_still(u, m, g, t, x, l);
    lemma_supply(u, m, g, MM_Q6_K, blk, d, dmin);
    lemma_splitting(m, g);
    quant_runs::lemma_q6k_half(m, g, blk, d, dmin, 1, t, x, l);
    lemma_two(u, m, m.all(b, g), g, MM_Q6_K, blk, d, dmin, t, x, l);
}

proof fn lemma_halves_q8_0(
    u: Unit,
    g: Map<Gpr, int>,
    blk: Seq<u8>,
    d: spec_fn(int) -> real,
    dmin: real,
    t: u8,
    x: Act,
    l: int,
)
    requires
        supplied(u, g, MM_Q8_0, blk, d, dmin),
        ready(u, g, t, x, l),
    ensures
        summed(u, u.all(ops_halves(MM_Q8_0, t, x), g), g, MM_Q8_0, blk, d, dmin, t, x, l),
{
    lemma_splitting(u, g);
    let (a, b) = (quant_runs::q8_0_ops(0, t, x), quant_runs::q8_0_ops(1, t, x));
    u.lemma_parts(a, b, g);
    quant_runs::lemma_q8_0_half(u, g, blk, d, dmin, 0, t, x, l);
    let m = u.all(a, g);
    lemma_still(u, m, g, t, x, l);
    lemma_supply(u, m, g, MM_Q8_0, blk, d, dmin);
    lemma_splitting(m, g);
    quant_runs::lemma_q8_0_half(m, g, blk, d, dmin, 1, t, x, l);
    lemma_two(u, m, m.all(b, g), g, MM_Q8_0, blk, d, dmin, t, x, l);
}

proof fn lemma_halves_iq4xs(
    u: Unit,
    g: Map<Gpr, int>,
    blk: Seq<u8>,
    d: spec_fn(int) -> real,
    dmin: real,
    t: u8,
    x: Act,
    l: int,
)
    requires
        supplied(u, g, MM_IQ4_XS, blk, d, dmin),
        ready(u, g, t, x, l),
    ensures
        summed(u, u.all(ops_halves(MM_IQ4_XS, t, x), g), g, MM_IQ4_XS, blk, d, dmin, t, x, l),
{
    lemma_splitting(u, g);
    let (a, b) = (quant_runs::iq4xs_ops(0, t, x), quant_runs::iq4xs_ops(1, t, x));
    u.lemma_parts(a, b, g);
    quant_runs::lemma_iq4xs_half(u, g, blk, d, dmin, 0, t, x, l);
    let m = u.all(a, g);
    lemma_still(u, m, g, t, x, l);
    lemma_supply(u, m, g, MM_IQ4_XS, blk, d, dmin);
    lemma_splitting(m, g);
    quant_runs::lemma_iq4xs_half(m, g, blk, d, dmin, 1, t, x, l);
    lemma_two(u, m, m.all(b, g), g, MM_IQ4_XS, blk, d, dmin, t, x, l);
}

/// The two halves add the whole sum.
proof fn lemma_halves(
    u: Unit,
    g: Map<Gpr, int>,
    fmt: u32,
    blk: Seq<u8>,
    d: spec_fn(int) -> real,
    dmin: real,
    t: u8,
    x: Act,
    l: int,
)
    requires
        quantized(fmt),
        supplied(u, g, fmt, blk, d, dmin),
        ready(u, g, t, x, l),
    ensures
        summed(u, u.all(ops_halves(fmt, t, x), g), g, fmt, blk, d, dmin, t, x, l),
{
    if fmt == MM_Q4_K {
        lemma_halves_q4k(u, g, blk, d, dmin, t, x, l);
    } else if fmt == MM_Q5_K {
        lemma_halves_q5k(u, g, blk, d, dmin, t, x, l);
    } else if fmt == MM_Q6_K {
        lemma_halves_q6k(u, g, blk, d, dmin, t, x, l);
    } else if fmt == MM_Q8_0 {
        lemma_halves_q8_0(u, g, blk, d, dmin, t, x, l);
    } else {
        lemma_halves_iq4xs(u, g, blk, d, dmin, t, x, l);
    }
}

/// The core before the instructions that compute.
spec fn set_up(
    c: Core,
    n: Core,
    fmt: u32,
    t: u8,
    x: Act,
    blk: Seq<u8>,
    d: spec_fn(int) -> real,
    dmin: real,
) -> bool {
    let s = c.g[Gpr::Rsp];
    &&& n == (Core { g: n.g, quad: n.quad, unit: n.unit, ..c })
    &&& tabling(c.unit, n.unit, c.g)
    &&& tabled(n.unit, c.g, fmt, blk, |v: int| factor(fmt, d, v), least(fmt, dmin))
    &&& forall|i: int| 0 <= i < t ==> #[trigger] n.g[row(i as u8)] == row_base(c, i)
    &&& forall|r: Gpr|
        r != Gpr::Rax && r != Gpr::R10 && r != Gpr::R11 && (t <= 4 || r != Gpr::Rsp && r
            != Gpr::Rbx && r != Gpr::R13 && r != Gpr::R14 && r != Gpr::R15) ==> #[trigger] n.g[r]
            == c.g[r]
    &&& t > 4 ==> n.g[Gpr::Rsp] == s - 32 && (n.quad)(s - 8) == c.g[Gpr::Rbx] && (n.quad)(s - 16)
        == c.g[Gpr::R13] && (n.quad)(s - 24) == c.g[Gpr::R14] && (n.quad)(s - 32)
        == c.g[Gpr::R15]
}

/// The core before a preparation.
spec fn entered(c: Core, n: Core, t: u8) -> bool {
    let s = c.g[Gpr::Rsp];
    &&& n == (Core { g: n.g, quad: n.quad, ..c })
    &&& forall|r: Gpr|
        r != Gpr::Rax && r != Gpr::R11 && (t <= 4 || r != Gpr::Rsp) ==> #[trigger] n.g[r]
            == c.g[r]
    &&& t > 4 ==> n.g[Gpr::Rsp] == s - 32 && (n.quad)(s - 8) == c.g[Gpr::Rbx] && (n.quad)(s - 16)
        == c.g[Gpr::R13] && (n.quad)(s - 24) == c.g[Gpr::R14] && (n.quad)(s - 32)
        == c.g[Gpr::R15]
    &&& forall|a: int|
        t <= 4 || a < s - 32 || s <= a ==> #[trigger] (n.quad)(a) == (c.quad)(a)
}

proof fn lemma_entered(c: Core, bytes: i32, t: u8)
    requires
        0 <= bytes,
    ensures
        entered(c, c.passed(ahead_lines(bytes) + save_lines(t)), t),
{
    c.lemma_passed(ahead_lines(bytes), save_lines(t));
    lemma_ahead(c, bytes);
    let c1 = c.passed(ahead_lines(bytes));
    lemma_save(c1, t);
    let n = c1.passed(save_lines(t));
    if t > 4 {
        assert(c1.g[Gpr::Rsp] == c.g[Gpr::Rsp]);
        assert(c1.g[Gpr::Rbx] == c.g[Gpr::Rbx] && c1.g[Gpr::R13] == c.g[Gpr::R13]
            && c1.g[Gpr::R14] == c.g[Gpr::R14] && c1.g[Gpr::R15] == c.g[Gpr::R15]);
    }
}

/// The pointers of the rows after a preparation.
proof fn lemma_rows(c: Core, m: Core, p: Core, t: u8)
    requires
        1 <= t <= 8,
        entered(c, m, t),
        p == (Core { g: p.g, unit: p.unit, ..m }),
        forall|r: Gpr| r != Gpr::Rax ==> #[trigger] p.g[r] == m.g[r],
        stack_free(c, t),
    ensures
        ({
            let n = p.passed(pointer_lines(t));
            let s = c.g[Gpr::Rsp];
            &&& n == (Core { g: n.g, ..p })
            &&& forall|i: int| 0 <= i < t ==> #[trigger] n.g[row(i as u8)] == row_base(c, i)
            &&& forall|r: Gpr|
                r != Gpr::Rax && r != Gpr::R10 && r != Gpr::R11 && (t <= 4 || r != Gpr::Rsp && r
                    != Gpr::Rbx && r != Gpr::R13 && r != Gpr::R14 && r != Gpr::R15)
                    ==> #[trigger] n.g[r] == c.g[r]
            &&& t > 4 ==> n.g[Gpr::Rsp] == s - 32
        }),
{
    lemma_pointers(p, t);
    let n = p.passed(pointer_lines(t));
    assert(p.g[STRIDE] == c.g[STRIDE]);
    assert forall|i: int| 0 <= i < t implies #[trigger] n.g[row(i as u8)] == row_base(c, i) by {
        if i == 0 {
            assert(!pointed(Gpr::Rsi, t));
            assert(n.g[Gpr::Rsi] == p.g[Gpr::Rsi]);
            assert(p.g[Gpr::Rsi] == m.g[Gpr::Rsi]);
        } else {
            let a = c.g[STRIDE] + 8 * i;
            assert((p.quad)(a) == (m.quad)(a));
            assert((m.quad)(a) == (c.quad)(a));
        }
    }
}

proof fn lemma_setup(
    c: Core,
    fmt: u32,
    t: u8,
    x: Act,
    blk: Seq<u8>,
    d: spec_fn(int) -> real,
    dmin: real,
)
    requires
        called(c, fmt, t, x, blk, d, dmin),
    ensures
        set_up(c, c.passed(setup_lines(fmt, t)), fmt, t, x, blk, d, dmin),
{
    let (a, e, f) = (
        ahead_lines(block_bytes(fmt)) + save_lines(t),
        prep_lines(prep_of(fmt)),
        pointer_lines(t),
    );
    c.lemma_passed(a, e);
    c.lemma_passed(a + e, f);
    lemma_entered(c, block_bytes(fmt), t);
    let m = c.passed(a);
    assert(m.unit == c.unit);
    assert(m.g[BLK] == c.g[BLK] && m.g[CONSTS] == c.g[CONSTS] && m.g[TAB] == c.g[TAB] && m.g[ACC]
        == c.g[ACC]);
    lemma_same(c.unit, c.g, m.g, fmt, blk, d, dmin);
    lemma_prepared(m, fmt, blk, d, dmin);
    let p = m.passed(e);
    lemma_rows(c, m, p, t);
    let n = p.passed(f);
    lemma_table(
        p.unit,
        n.unit,
        m.g,
        c.g,
        fmt,
        blk,
        |v: int| factor(fmt, d, v),
        least(fmt, dmin),
    );
    assert(tabling(c.unit, n.unit, c.g));
}

/// The same registers point at the same things.
proof fn lemma_same(
    u: Unit,
    g: Map<Gpr, int>,
    h: Map<Gpr, int>,
    fmt: u32,
    blk: Seq<u8>,
    d: spec_fn(int) -> real,
    dmin: real,
)
    requires
        h[BLK] == g[BLK],
        h[CONSTS] == g[CONSTS],
        h[TAB] == g[TAB],
        h[ACC] == g[ACC],
        holds(u, g, blk),
        factored(u, g, fmt, d, dmin),
        stocked(u, g),
        table_apart(g, block_bytes(fmt) as int),
        based(g),
    ensures
        holds(u, h, blk),
        factored(u, h, fmt, d, dmin),
        stocked(u, h),
        table_apart(h, block_bytes(fmt) as int),
        based(h),
{
}

/// What is in memory apart from the table is as it was.
proof fn lemma_supplied(
    c: Core,
    n: Core,
    fmt: u32,
    t: u8,
    x: Act,
    blk: Seq<u8>,
    d: spec_fn(int) -> real,
    dmin: real,
)
    requires
        called(c, fmt, t, x, blk, d, dmin),
        set_up(c, n, fmt, t, x, blk, d, dmin),
    ensures
        supplied(n.unit, n.g, fmt, blk, |v: int| factor(fmt, d, v), least(fmt, dmin)),
        forall|i: int, l: int|
            0 <= i < t && 0 <= l < 16 ==> #[trigger] accumulator(n.unit, n.g, i, l) == accumulator(
                c.unit,
                c.g,
                i,
                l,
            ),
        forall|i: int, v: int, l: int|
            0 <= i < t && 0 <= v < 16 && 0 <= l < 16 ==> #[trigger] activation(
                n.unit,
                n.g,
                x,
                i,
                v,
                l,
            ) == input(c, x, i, v, l),
{
    let (u, w) = (c.unit, n.unit);
    lemma_table(w, w, c.g, n.g, fmt, blk, |v: int| factor(fmt, d, v), least(fmt, dmin));
    assert(n.g[BLK] == c.g[BLK] && n.g[CONSTS] == c.g[CONSTS] && n.g[TAB] == c.g[TAB] && n.g[ACC]
        == c.g[ACC]);
    assert(holds(w, n.g, blk)) by {
        assert forall|i: int| #![trigger blk[i]] 0 <= i < blk.len() implies (w.mem)(
            Form::Byte,
            n.g[BLK] + i,
        ) == (u.mem)(Form::Byte, n.g[BLK] + i) && (w.mem)(Form::Signed, n.g[BLK] + i) == (u.mem)(
            Form::Signed,
            n.g[BLK] + i,
        ) && (w.mem)(Form::IntByte, n.g[BLK] + i) == (u.mem)(Form::IntByte, n.g[BLK] + i) && (
        w.mem)(Form::IntSigned, n.g[BLK] + i) == (u.mem)(Form::IntSigned, n.g[BLK] + i) by {}
    }
    assert forall|off: int| 0 <= off <= C_BYTES - 4 implies #[trigger] (w.mem)(
        Form::Word,
        n.g[CONSTS] + off,
    ) == (u.mem)(Form::Word, c.g[CONSTS] + off) by {}
    assert(dots::powers(w, n.g)) by {
        assert forall|j: int| 1 <= j <= 8 implies dots::constant_is(
            w,
            n.g,
            quant::C_POW2NEG + 4 * (j - 1),
            (1int as real) / (#[trigger] dots::pow(j) as real),
        ) by {
            assert((w.mem)(Form::Word, n.g[CONSTS] + (quant::C_POW2NEG + 4 * (j - 1))) == (u.mem)(
                Form::Word,
                c.g[CONSTS] + (quant::C_POW2NEG + 4 * (j - 1)),
            ));
        }
    }
    assert(quant_runs::valued(w, n.g)) by {
        assert forall|k: int| 0 <= k < 16 implies (w.mem)(
            Form::Word,
            n.g[CONSTS] + quant::C_LUT + 4 * k,
        ) == dots::whole(#[trigger] crate::vpu::weights::iq4nl(k as u8) as int) by {
            assert((w.mem)(Form::Word, n.g[CONSTS] + (quant::C_LUT + 4 * k)) == (u.mem)(
                Form::Word,
                c.g[CONSTS] + (quant::C_LUT + 4 * k),
            ));
        }
    }
    assert forall|i: int, l: int| 0 <= i < t && 0 <= l < 16 implies #[trigger] accumulator(
        w,
        n.g,
        i,
        l,
    ) == accumulator(u, c.g, i, l) by {}
    assert forall|i: int, v: int, l: int|
        0 <= i < t && 0 <= v < 16 && 0 <= l < 16 implies #[trigger] activation(
        w,
        n.g,
        x,
        i,
        v,
        l,
    ) == input(c, x, i, v, l) by {
        assert(n.g[row(i as u8)] == row_base(c, i));
        assert(c.g[TAB] + TAB_BYTES <= row_base(c, i) || row_base(c, i) + 16 * x.stride()
            <= c.g[TAB]);
    }
}

/// The instructions that compute.
proof fn lemma_computed(
    c: Core,
    n: Core,
    fmt: u32,
    t: u8,
    x: Act,
    blk: Seq<u8>,
    d: spec_fn(int) -> real,
    dmin: real,
)
    requires
        called(c, fmt, t, x, blk, d, dmin),
        set_up(c, n, fmt, t, x, blk, d, dmin),
    ensures
        ({
            let w = n.unit.all(ops_whole(fmt, t, x), n.g);
            &&& forall|i: int, l: int|
                0 <= i < t && 0 <= l < 16 ==> is_num(#[trigger] accumulator(w, c.g, i, l)) && num(
                    accumulator(w, c.g, i, l),
                ) == num(accumulator(c.unit, c.g, i, l)) + sum(
                    product(c, fmt, x, blk, d, dmin, i, l),
                    16,
                )
            &&& forall|f: Form, b: int|
                b + f.width() <= c.g[ACC] || c.g[ACC] + 64 * t <= b ==> #[trigger] (w.mem)(f, b)
                    == (n.unit.mem)(f, b)
        }),
{
    let (u, g) = (n.unit, n.g);
    let (e, dm) = (|v: int| factor(fmt, d, v), least(fmt, dmin));
    lemma_supplied(c, n, fmt, t, x, blk, d, dmin);
    let (p, q, r) = (
        ops_loaded(t) + ops_spare(t),
        ops_halves(fmt, t, x),
        ops_fold(t) + ops_stored(t),
    );
    assert(ops_whole(fmt, t, x) =~= p + q + r);
    u.lemma_parts(p, q, g);
    u.lemma_parts(p + q, r, g);
    assert forall|i: int, l: int| 0 <= i < t && 0 <= l < 16 implies is_num(
        #[trigger] accumulator(u, g, i, l),
    ) by {
        assert(is_num(accumulator(c.unit, c.g, i, l)));
    }
    lemma_start(u, g, t);
    let u1 = u.all(p, g);
    let u2 = u1.all(q, g);
    lemma_supply(u, u1, g, fmt, blk, e, dm);
    assert forall|l: int| 0 <= l < 16 implies summed(
        u1,
        u2,
        g,
        fmt,
        blk,
        e,
        dm,
        t,
        x,
        l,
    ) && #[trigger] accs_ok(u2, t, l) by {
        assert(accs_ok(u1, t, l));
        assert forall|i: int, v: int| 0 <= i < t && 0 <= v < 16 implies is_num(
            #[trigger] activation(u1, g, x, i, v, l),
        ) by {
            assert(activation(u1, g, x, i, v, l) == activation(u, g, x, i, v, l));
            assert(is_num(input(c, x, i, v, l)));
        }
        lemma_halves(u1, g, fmt, blk, e, dm, t, x, l);
    }
    assert(summed(u1, u2, g, fmt, blk, e, dm, t, x, 0)) by {
        assert(accs_ok(u2, t, 0));
    }
    lemma_finish(u2, g, t);
    let w = u2.all(r, g);
    assert forall|i: int, l: int| 0 <= i < t && 0 <= l < 16 implies is_num(
        #[trigger] accumulator(w, c.g, i, l),
    ) && num(accumulator(w, c.g, i, l)) == num(accumulator(c.unit, c.g, i, l)) + sum(
        product(c, fmt, x, blk, d, dmin, i, l),
        16,
    ) by {
        assert(accumulator(w, g, i, l) == accumulator(w, c.g, i, l));
        assert(accs_ok(u2, t, l));
        let (f, h) = (
            term(u1, g, fmt, blk, e, dm, x, i, l),
            product(c, fmt, x, blk, d, dmin, i, l),
        );
        assert forall|v: int| 0 <= v < 16 implies #[trigger] f(v) == h(v) by {
            assert(activation(u1, g, x, i, v, l) == activation(u, g, x, i, v, l));
        }
        lemma_sum(f, h, 16);
        assert(total(u2, t, i, l) == total(u1, t, i, l) + sum(f, 16));
        assert(total(u1, t, i, l) == num(accumulator(u, g, i, l)));
    }
}

/// Whether every line can be passed.
spec fn passing(s: Seq<Line>) -> bool {
    forall|i: int| 0 <= i < s.len() ==> machine::passable(#[trigger] s[i])
}

proof fn lemma_passing(a: Seq<Line>, b: Seq<Line>)
    requires
        passing(a),
        passing(b),
    ensures
        passing(a + b),
{
    assert forall|i: int| 0 <= i < (a + b).len() implies machine::passable(
        #[trigger] (a + b)[i],
    ) by {
        if i < a.len() {
            assert((a + b)[i] == a[i]);
        } else {
            assert((a + b)[i] == b[i - a.len()]);
        }
    }
}

proof fn lemma_ops_passing(ops: Seq<Op>)
    ensures
        passing(lines_of(ops)),
{
}

proof fn lemma_lanes_passing(n: int)
    ensures
        passing(lane_lines(n)),
    decreases n,
{
    reveal(lane_lines);
    if n > 0 {
        let a = lane_lines(n - 1);
        let b = small(quant_tables::lane_mask(n - 1));
        lemma_lanes_passing(n - 1);
        assert(passing(b));
        lemma_ops_passing(quant_tables::ops_q8_0_lane(n - 1));
        lemma_passing(a, b);
        lemma_passing(a + b, lines_of(quant_tables::ops_q8_0_lane(n - 1)));
    }
}

proof fn lemma_prep_passing(prep: Prep)
    ensures
        passing(prep_lines(prep)),
{
    match prep {
        Prep::K4 => {
            let a = lines_of(quant_tables::ops_k4_forms());
            let b = lines_of(quant_tables::ops_kept(20));
            let e = lines_of(
                quant_tables::ops_kept(21) + quant_tables::ops_k4_scaled()
                    + quant_tables::ops_k4_table(),
            );
            assert(passing(a) && passing(b) && passing(e));
            assert(passing(small(240)) && passing(small(61440)));
            lemma_passing(a, small(240));
            lemma_passing(a + small(240), b);
            lemma_passing(a + small(240) + b, small(61440));
            lemma_passing(a + small(240) + b + small(61440), e);
        },
        Prep::Q80 => {
            let a = lines_of(
                Seq::<Op>::empty().push(quant_tables::op_two(Two::Xor, 16, 16, 16)),
            );
            let e = lines_of(quant_tables::ops_expanded(16, C_IDX_EXPAND, TAB_SC));
            assert(passing(a) && passing(e));
            lemma_lanes_passing(8);
            lemma_passing(a, lane_lines(8));
            lemma_passing(a + lane_lines(8), e);
        },
        Prep::Q6K => {
            lemma_ops_passing(quant_tables::ops_q6k());
        },
        Prep::Iq4xs => {
            lemma_ops_passing(quant_tables::ops_iq4xs());
        },
    }
}

proof fn lemma_pointers_passing(t: u8)
    ensures
        passing(pointer_lines(t)),
    decreases t,
{
    if t > 1 {
        lemma_pointers_passing((t - 1) as u8);
    }
}

proof fn lemma_setup_passing(fmt: u32, t: u8)
    ensures
        passing(setup_lines(fmt, t)),
{
    let (a, b, e, f) = (
        ahead_lines(block_bytes(fmt)),
        save_lines(t),
        prep_lines(prep_of(fmt)),
        pointer_lines(t),
    );
    assert(passing(a)) by {
        let m = (block_bytes(fmt) + 63) / 64 + 1;
        let a1 = Seq::<Line>::empty().push(Line::Argument).push(
            Line::Lea { from: Gpr::Rdi, by: quant::PF_L1 as int },
        );
        let a2 = Seq::<Line>::empty().push(
            Line::Lea { from: Gpr::Rax, by: quant::PF_L2 - quant::PF_L1 },
        );
        assert(passing(a1) && passing(a2));
        assert(passing(fetches(m, Cache::L1)) && passing(fetches(m, Cache::L2)));
        lemma_passing(a1, fetches(m, Cache::L1));
        lemma_passing(a1 + fetches(m, Cache::L1), a2);
        lemma_passing(a1 + fetches(m, Cache::L1) + a2, fetches(m, Cache::L2));
    }
    assert(passing(b));
    lemma_prep_passing(prep_of(fmt));
    lemma_pointers_passing(t);
    lemma_passing(a, b);
    lemma_passing(a + b, e);
    lemma_passing(a + b + e, f);
}

/// A quantized kernel returns, and every lane of every accumulator has the
/// sum of the products of its lane's weights and activations added: lane `l`
/// of row `i` gains `sum(weight(16 v + l) * x[i][16 v + l])` over the sixteen
/// vectors `v`, where a weight is `d * scale * quant - dmin * min` with the
/// integers its block has for it. It writes nothing but the accumulators and
/// the table, and leaves every register but rax, r10 and r11 as it was.
pub proof fn law_quantized(
    c: Core,
    fmt: u32,
    t: u8,
    x: Act,
    blk: Seq<u8>,
    d: spec_fn(int) -> real,
    dmin: real,
) -> (to: Core)
    requires
        called(c, fmt, t, x, blk, d, dmin),
    ensures
        c.reaches(kernel_lines(fmt, t, x), to),
        to.done && to.ok,
        forall|i: int, l: int|
            0 <= i < t && 0 <= l < 16 ==> is_num(#[trigger] accumulator(to.unit, c.g, i, l)) && num(
                accumulator(to.unit, c.g, i, l),
            ) == num(accumulator(c.unit, c.g, i, l)) + sum(
                product(c, fmt, x, blk, d, dmin, i, l),
                16,
            ),
        forall|f: Form, b: int|
            (b + f.width() <= c.g[ACC] || c.g[ACC] + 64 * t <= b) && (b + f.width() <= c.g[TAB]
                || c.g[TAB] + TAB_BYTES <= b) ==> #[trigger] (to.unit.mem)(f, b) == (c.unit.mem)(
                f,
                b,
            ),
        forall|r: Gpr|
            r != Gpr::Rax && r != Gpr::R10 && r != Gpr::R11 ==> #[trigger] to.g[r] == c.g[r],
{
    let lines = kernel_lines(fmt, t, x);
    let (a, b, e) = (
        setup_lines(fmt, t),
        lines_of(ops_whole(fmt, t, x)),
        restore_lines(t),
    );
    let s = a + b + e;
    c.lemma_passed(a, b);
    c.lemma_passed(a + b, e);
    lemma_setup(c, fmt, t, x, blk, d, dmin);
    let n = c.passed(a);
    assert(n.ok);
    assert(n.g[BLK] == c.g[BLK] && n.g[CONSTS] == c.g[CONSTS] && n.g[TAB] == c.g[TAB] && n.g[ACC]
        == c.g[ACC]);
    assert(rowed(n.g, t, x)) by {
        assert forall|i: int| 0 <= i < t implies #[trigger] n.g[row(i as u8)] % (
        x.stride() as int) == 0 by {
            assert(row_base(c, i) % (x.stride() as int) == 0);
        }
    }
    quant_aligned::lemma_whole(fmt, t, x, n.g);
    lemma_ops(n, ops_whole(fmt, t, x));
    let m = n.passed(b);
    lemma_computed(c, n, fmt, t, x, blk, d, dmin);
    lemma_restore(m, t);
    let q = m.passed(e);
    assert(c.passed(s) == q);
    assert(passing(s)) by {
        lemma_setup_passing(fmt, t);
        lemma_ops_passing(ops_whole(fmt, t, x));
        assert(passing(e));
        lemma_passing(a, b);
        lemma_passing(a + b, e);
    }
    assert(lines == s.push(Line::Ret));
    assert forall|i: int| 0 <= i < s.len() implies lines[c.at + i] == #[trigger] s[i]
        && machine::passable(s[i]) by {}
    c.lemma_straight(lines, s);
    let last = c.run(lines, s.len());
    c.lemma_parts(lines, s.len(), 1);
    let to = last.step(lines);
    assert(last.run(lines, 1) == to) by {
        reveal_with_fuel(Core::run, 2);
    }
    assert(c.run(lines, s.len() + 1) == to);
    assert(lines[last.at] == Line::Ret);
    assert(to == (Core { done: true, ..last }));
    assert(to.unit == m.unit);
    assert forall|r: Gpr|
        r != Gpr::Rax && r != Gpr::R10 && r != Gpr::R11 implies #[trigger] to.g[r] == c.g[r] by {
        assert(to.g[r] == q.g[r]);
        assert(m.g == n.g);
        if t > 4 {
            let s = c.g[Gpr::Rsp];
            assert(m.g[Gpr::Rsp] == s - 32);
        }
    }
    assert forall|f: Form, b: int|
        (b + f.width() <= c.g[ACC] || c.g[ACC] + 64 * t <= b) && (b + f.width() <= c.g[TAB]
            || c.g[TAB] + TAB_BYTES <= b) implies #[trigger] (to.unit.mem)(f, b) == (c.unit.mem)(
        f,
        b,
    ) by {
        assert((to.unit.mem)(f, b) == (n.unit.mem)(f, b));
    }
    to
}

} // verus!
