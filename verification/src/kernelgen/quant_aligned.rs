//! Every vector instruction of the quantized kernels can be run: its operands
//! are on the boundaries of what they read.
use crate::kernelgen::dots;
use crate::kernelgen::quant;
use crate::kernelgen::quant::{row, Act, ACC, BLK, CONSTS, TAB};
use crate::kernelgen::quant_kernels;
use crate::kernelgen::quant_runs;
use crate::kernelgen::quant_tables;
use crate::kernelgen::vector;
use crate::kernelgen::vector::{Form, Op, Two};
use crate::mvex::reg::{Conv, Gpr, Mem, Src, Zmm};
use crate::vpu::proto::{MM_Q4_K, MM_Q5_K, MM_Q6_K, MM_Q8_0};
use vstd::prelude::*;

verus! {

/// Whether instructions can all be run.
pub open spec fn all_run(ops: Seq<Op>, g: Map<Gpr, int>) -> bool {
    forall|i: int| 0 <= i < ops.len() ==> (#[trigger] ops[i]).runs(g)
}

/// Whether the table, the accumulators and the constants are on 64-byte
/// boundaries.
pub open spec fn based(g: Map<Gpr, int>) -> bool {
    &&& g[CONSTS] % 64 == 0
    &&& g[TAB] % 64 == 0
    &&& g[ACC] % 64 == 0
}

/// Whether the rows are on the boundaries of their vectors.
pub open spec fn rowed(g: Map<Gpr, int>, t: u8, x: Act) -> bool {
    forall|i: int| 0 <= i < t ==> #[trigger] g[row(i as u8)] % (x.stride() as int) == 0
}

/// Whether a block is on the boundary its kernel needs.
pub open spec fn blocked(g: Map<Gpr, int>, fmt: u32) -> bool {
    fmt == MM_Q4_K || fmt == MM_Q5_K ==> g[BLK] % 16 == 0
}

pub proof fn lemma_cat(a: Seq<Op>, b: Seq<Op>, g: Map<Gpr, int>)
    requires
        all_run(a, g),
        all_run(b, g),
    ensures
        all_run(a + b, g),
{
    assert forall|i: int| 0 <= i < (a + b).len() implies (#[trigger] (a + b)[i]).runs(g) by {
        if i < a.len() {
            assert((a + b)[i] == a[i]);
        } else {
            assert((a + b)[i] == b[i - a.len()]);
        }
    }
}

pub broadcast proof fn lemma_push(s: Seq<Op>, op: Op, g: Map<Gpr, int>)
    requires
        all_run(s, g),
        op.runs(g),
    ensures
        #[trigger] all_run(s.push(op), g),
{
}

pub broadcast proof fn lemma_none(g: Map<Gpr, int>)
    ensures
        #[trigger] all_run(Seq::<Op>::empty(), g),
{
}

/// How far apart the vectors of an operand are.
spec fn boundary(conv: Conv) -> int {
    if conv is Plain {
        64
    } else if conv is F16 {
        32
    } else {
        16
    }
}

/// An operand on its boundary.
proof fn lemma_operand(base: Gpr, disp: i32, conv: Conv, g: Map<Gpr, int>)
    requires
        conv is Plain || conv is F16 || conv is U8 || conv is S8,
        (g[base] + disp) % boundary(conv) == 0,
    ensures
        vector::operand_runs(Src::MemConv(Mem::at(base, disp), conv), g),
{
    broadcast use Mem::lemma_at;

    let w = Form::of(conv, false).width();
    assert(16 * w == boundary(conv));
}

proof fn lemma_loads(loads: Seq<(u8, int)>, aligned: bool, conv: Conv, g: Map<Gpr, int>)
    requires
        conv is U8 || conv is S8,
        forall|i: int|
            0 <= i < loads.len() ==> 0 <= (#[trigger] loads[i]).1 <= 4096 && (aligned
                ==> loads[i].1 % 16 == 0),
        aligned ==> g[BLK] % 16 == 0,
    ensures
        all_run(dots::ops_loads(loads, aligned, conv), g),
    decreases loads.len(),
{
    broadcast use Mem::lemma_at;

    if loads.len() > 0 {
        let s = loads.drop_last();
        assert forall|i: int| 0 <= i < s.len() implies 0 <= (#[trigger] s[i]).1 <= 4096 && (aligned
            ==> s[i].1 % 16 == 0) by {
            assert(s[i] == loads[i]);
        }
        lemma_loads(s, aligned, conv, g);
        let last = loads[loads.len() - 1];
        let b = dots::ops_load(last.0, last.1, aligned, conv);
        if aligned {
            lemma_operand(BLK, last.1 as i32, conv, g);
        }
        assert(all_run(b, g));
        lemma_cat(dots::ops_loads(s, aligned, conv), b, g);
    }
}

proof fn lemma_nibbles(pairs: Seq<(Zmm, Zmm)>, g: Map<Gpr, int>)
    requires
        based(g),
    ensures
        all_run(dots::ops_nibbles(pairs), g),
{
    broadcast use Mem::lemma_at;

    reveal(dots::ops_nibbles);
    lemma_cat(dots::ops_high(pairs), dots::ops_floor(pairs), g);
    lemma_cat(dots::ops_high(pairs) + dots::ops_floor(pairs), dots::ops_low(pairs), g);
}

proof fn lemma_row(w: Zmm, v: i32, t: u8, x: Act, g: Map<Gpr, int>)
    requires
        0 <= v < 16,
        t <= 8,
        rowed(g, t, x),
    ensures
        all_run(dots::ops_fma_row(w, v, t, x), g),
{
    broadcast use Mem::lemma_at;

    let ops = dots::ops_fma_row(w, v, t, x);
    assert forall|j: int| 0 <= j < ops.len() implies (#[trigger] ops[j]).runs(g) by {
        assert(g[row(j as u8)] % (x.stride() as int) == 0);
        if x is F16 {
            assert(x.stride() == 32);
            lemma_operand(row(j as u8), (32 * v) as i32, Conv::F16, g);
        }
    }
}

proof fn lemma_fmas(t: u8, batch: Seq<(Zmm, i32)>, x: Act, g: Map<Gpr, int>)
    requires
        forall|i: int| 0 <= i < batch.len() ==> 0 <= (#[trigger] batch[i]).1 < 16,
        t <= 8,
        rowed(g, t, x),
    ensures
        all_run(dots::ops_fmas(t, batch, x), g),
    decreases batch.len(),
{
    if batch.len() > 0 {
        let s = batch.drop_last();
        assert forall|i: int| 0 <= i < s.len() implies 0 <= (#[trigger] s[i]).1 < 16 by {
            assert(s[i] == batch[i]);
        }
        lemma_fmas(t, s, x, g);
        let last = batch[batch.len() - 1];
        lemma_row(last.0, last.1, t, x, g);
        lemma_cat(dots::ops_fmas(t, s, x), dots::ops_fma_row(last.0, last.1, t, x), g);
    }
}

proof fn lemma_dot(t: u8, batch: Seq<(Zmm, i32)>, minuend: bool, x: Act, g: Map<Gpr, int>)
    requires
        forall|i: int| 0 <= i < batch.len() ==> 0 <= (#[trigger] batch[i]).1 < 16,
        t <= 8,
        based(g),
        rowed(g, t, x),
    ensures
        all_run(dots::ops_dot(t, batch, minuend, x), g),
{
    broadcast use Mem::lemma_at;

    reveal(dots::ops_dot);
    let (a, b, c) = (
        dots::ops_scale(batch),
        dots::ops_offset(batch),
        dots::ops_fmas(t, batch, x),
    );
    lemma_fmas(t, batch, x, g);
    assert(all_run(a, g)) by {
        assert forall|i: int| 0 <= i < a.len() implies (#[trigger] a[i]).runs(g) by {
            assert(0 <= batch[i].1 < 16);
        }
    }
    assert(all_run(b, g)) by {
        assert forall|i: int| 0 <= i < b.len() implies (#[trigger] b[i]).runs(g) by {
            assert(0 <= batch[i].1 < 16);
        }
    }
    lemma_cat(a, b, g);
    lemma_cat(a + b, c, g);
    lemma_cat(a, c, g);
}

proof fn lemma_add(pairs: Seq<(Zmm, Zmm)>, g: Map<Gpr, int>)
    requires
        based(g),
    ensures
        all_run(dots::ops_add(pairs), g),
{
    broadcast use Mem::lemma_at;

}

proof fn lemma_scaled(hs: Seq<(Zmm, u8)>, width: u8, n: u8, g: Map<Gpr, int>)
    requires
        width == 1 || width == 2,
        n <= 8,
        based(g),
    ensures
        all_run(dots::ops_fields_scaled(hs, width, n), g),
    decreases n,
{
    broadcast use Mem::lemma_at;

    if n > 1 {
        let m = (n - 1) as u8;
        lemma_scaled(hs, width, m, g);
        assert(all_run(dots::ops_field_scaled(hs, width, m), g));
        lemma_cat(
            dots::ops_fields_scaled(hs, width, m),
            dots::ops_field_scaled(hs, width, m),
            g,
        );
    }
}

proof fn lemma_floor(hs: Seq<(Zmm, u8)>, width: u8, n: u8, g: Map<Gpr, int>)
    ensures
        all_run(dots::ops_fields_floor(hs, width, n), g),
    decreases n,
{
    if n > 1 {
        let m = (n - 1) as u8;
        lemma_floor(hs, width, m, g);
        assert(all_run(dots::ops_field_floor(hs, width, m), g));
        lemma_cat(dots::ops_fields_floor(hs, width, m), dots::ops_field_floor(hs, width, m), g);
    }
}

proof fn lemma_low(hs: Seq<(Zmm, u8)>, width: u8, n: u8, g: Map<Gpr, int>)
    requires
        based(g),
    ensures
        all_run(dots::ops_fields_low(hs, width, n), g),
    decreases n,
{
    if n > 0 {
        let m = (n - 1) as u8;
        lemma_low(hs, width, m, g);
        assert(all_run(dots::ops_field_low(hs, width, m), g)) by {
            broadcast use Mem::lemma_at;

            let c = quant::spec_field_span(width);
            assert(vector::operand_runs(c, g));
            let ops = dots::ops_field_low(hs, width, m);
            assert forall|j: int| 0 <= j < ops.len() implies (#[trigger] ops[j]).runs(g) by {}
        }
        lemma_cat(dots::ops_fields_low(hs, width, m), dots::ops_field_low(hs, width, m), g);
    }
}

proof fn lemma_fields(hs: Seq<(Zmm, u8)>, width: u8, g: Map<Gpr, int>)
    requires
        width == 1 || width == 2,
        based(g),
    ensures
        all_run(dots::ops_fields(hs, width), g),
{
    reveal(dots::ops_fields);
    let n = (8u8 / width) as u8;
    let (a, b, c) = (
        dots::ops_fields_scaled(hs, width, n),
        dots::ops_fields_floor(hs, width, n),
        dots::ops_fields_low(hs, width, (n - 1) as u8),
    );
    lemma_scaled(hs, width, n, g);
    lemma_floor(hs, width, n, g);
    lemma_low(hs, width, (n - 1) as u8, g);
    lemma_cat(a, b, g);
    lemma_cat(a + b, c, g);
}

proof fn lemma_q4k(half: i32, t: u8, x: Act, g: Map<Gpr, int>)
    requires
        half == 0 || half == 1,
        t <= 8,
        based(g),
        rowed(g, t, x),
        g[BLK] % 16 == 0,
    ensures
        all_run(quant_runs::q4k_ops(half, t, x), g),
{
    reveal(quant_runs::q4k_loads);
    reveal(quant_runs::q4k_batch);
    let a = dots::ops_loads(quant_runs::q4k_loads(half as int), true, Conv::U8);
    let b = dots::ops_nibbles(quant_runs::q4k_pairs());
    lemma_loads(quant_runs::q4k_loads(half as int), true, Conv::U8, g);
    lemma_nibbles(quant_runs::q4k_pairs(), g);
    lemma_dot(t, quant_runs::q4k_batch(half), true, x, g);
    lemma_cat(a, b, g);
    lemma_cat(a + b, dots::ops_dot(t, quant_runs::q4k_batch(half), true, x), g);
}

proof fn lemma_q5k(half: i32, t: u8, x: Act, g: Map<Gpr, int>)
    requires
        half == 0 || half == 1,
        t <= 8,
        based(g),
        rowed(g, t, x),
        g[BLK] % 16 == 0,
    ensures
        all_run(quant_runs::q5k_ops(half, t, x), g),
{
    reveal(quant_runs::q5k_loads);
    reveal(quant_runs::q5k_batch);
    let a = dots::ops_loads(quant_runs::q5k_loads(half as int), true, Conv::U8);
    let b = dots::ops_nibbles(quant_runs::q5k_pairs());
    let c = dots::ops_add(quant_runs::q5k_highs(half));
    lemma_loads(quant_runs::q5k_loads(half as int), true, Conv::U8, g);
    lemma_nibbles(quant_runs::q5k_pairs(), g);
    lemma_add(quant_runs::q5k_highs(half), g);
    lemma_dot(t, quant_runs::q5k_batch(half), true, x, g);
    lemma_cat(a, b, g);
    lemma_cat(a + b, c, g);
    lemma_cat(a + b + c, dots::ops_dot(t, quant_runs::q5k_batch(half), true, x), g);
}

proof fn lemma_q5k_bits(g: Map<Gpr, int>)
    requires
        based(g),
        g[BLK] % 16 == 0,
    ensures
        all_run(quant_runs::q5k_bits(), g),
{
    reveal(quant_runs::q5k_top_loads);
    lemma_loads(quant_runs::q5k_top_loads(), true, Conv::U8, g);
    lemma_fields(quant_runs::q5k_tops(), 1, g);
    lemma_cat(
        dots::ops_loads(quant_runs::q5k_top_loads(), true, Conv::U8),
        dots::ops_fields(quant_runs::q5k_tops(), 1),
        g,
    );
}

proof fn lemma_q6k(half: i32, t: u8, x: Act, g: Map<Gpr, int>)
    requires
        half == 0 || half == 1,
        t <= 8,
        based(g),
        rowed(g, t, x),
    ensures
        all_run(quant_runs::q6k_ops(half, t, x), g),
{
    reveal(quant_runs::q6k_loads);
    reveal(quant_runs::q6k_batch);
    let a = dots::ops_loads(quant_runs::q6k_loads(half as int), false, Conv::U8);
    let f = dots::ops_fields(quant_runs::q6k_tops(), 2);
    let b = dots::ops_nibbles(quant_runs::q6k_pairs());
    let c = dots::ops_add(quant_runs::q6k_highs());
    lemma_loads(quant_runs::q6k_loads(half as int), false, Conv::U8, g);
    lemma_fields(quant_runs::q6k_tops(), 2, g);
    lemma_nibbles(quant_runs::q6k_pairs(), g);
    lemma_add(quant_runs::q6k_highs(), g);
    lemma_dot(t, quant_runs::q6k_batch(half), true, x, g);
    lemma_cat(a, f, g);
    lemma_cat(a + f, b, g);
    lemma_cat(a + f + b, c, g);
    lemma_cat(a + f + b + c, dots::ops_dot(t, quant_runs::q6k_batch(half), true, x), g);
}

proof fn lemma_q8_0(half: i32, t: u8, x: Act, g: Map<Gpr, int>)
    requires
        half == 0 || half == 1,
        t <= 8,
        based(g),
        rowed(g, t, x),
    ensures
        all_run(quant_runs::q8_0_ops(half, t, x), g),
{
    reveal(quant_runs::q8_0_loads);
    reveal(quant_runs::q8_0_batch);
    lemma_loads(quant_runs::q8_0_loads(half as int), false, Conv::S8, g);
    lemma_dot(t, quant_runs::q8_0_batch(half), false, x, g);
    lemma_cat(
        quant_runs::q8_0_quants(half),
        dots::ops_dot(t, quant_runs::q8_0_batch(half), false, x),
        g,
    );
}

proof fn lemma_iq4xs(half: i32, t: u8, x: Act, g: Map<Gpr, int>)
    requires
        half == 0 || half == 1,
        t <= 8,
        based(g),
        rowed(g, t, x),
    ensures
        all_run(quant_runs::iq4xs_ops(half, t, x), g),
{
    broadcast use Mem::lemma_at;

    reveal(quant_runs::iq4xs_loads);
    reveal(quant_runs::iq4xs_batch);
    reveal(quant_runs::iq4xs_indices);
    reveal(quant_runs::iq4xs_values);
    let a = dots::ops_loads(quant_runs::iq4xs_loads(half as int), false, Conv::U8);
    let b = dots::ops_nibbles(quant_runs::q4k_pairs());
    let (c, e) = (quant_runs::iq4xs_indices(), quant_runs::iq4xs_values());
    lemma_loads(quant_runs::iq4xs_loads(half as int), false, Conv::U8, g);
    lemma_nibbles(quant_runs::q4k_pairs(), g);
    lemma_dot(t, quant_runs::iq4xs_batch(half), false, x, g);
    lemma_cat(a, b, g);
    lemma_cat(a + b, c, g);
    lemma_cat(a + b + c, e, g);
    lemma_cat(a + b + c + e, dots::ops_dot(t, quant_runs::iq4xs_batch(half), false, x), g);
}

/// The halves of a block.
pub proof fn lemma_halves(fmt: u32, t: u8, x: Act, g: Map<Gpr, int>)
    requires
        t <= 8,
        based(g),
        rowed(g, t, x),
        blocked(g, fmt),
    ensures
        all_run(quant_kernels::ops_halves(fmt, t, x), g),
{
    if fmt == MM_Q4_K {
        lemma_q4k(0, t, x, g);
        lemma_q4k(1, t, x, g);
        lemma_cat(quant_runs::q4k_ops(0, t, x), quant_runs::q4k_ops(1, t, x), g);
    } else if fmt == MM_Q5_K {
        let (a, b, c) = (
            quant_runs::q5k_bits(),
            quant_runs::q5k_ops(0, t, x),
            quant_runs::q5k_ops(1, t, x),
        );
        lemma_q5k_bits(g);
        lemma_q5k(0, t, x, g);
        lemma_q5k(1, t, x, g);
        lemma_cat(a, b, g);
        lemma_cat(a + b, c, g);
    } else if fmt == MM_Q6_K {
        lemma_q6k(0, t, x, g);
        lemma_q6k(1, t, x, g);
        lemma_cat(quant_runs::q6k_ops(0, t, x), quant_runs::q6k_ops(1, t, x), g);
    } else if fmt == MM_Q8_0 {
        lemma_q8_0(0, t, x, g);
        lemma_q8_0(1, t, x, g);
        lemma_cat(quant_runs::q8_0_ops(0, t, x), quant_runs::q8_0_ops(1, t, x), g);
    } else {
        lemma_iq4xs(0, t, x, g);
        lemma_iq4xs(1, t, x, g);
        lemma_cat(quant_runs::iq4xs_ops(0, t, x), quant_runs::iq4xs_ops(1, t, x), g);
    }
}

/// All the instructions that compute.
pub proof fn lemma_whole(fmt: u32, t: u8, x: Act, g: Map<Gpr, int>)
    requires
        t <= 8,
        based(g),
        rowed(g, t, x),
        blocked(g, fmt),
    ensures
        all_run(quant_kernels::ops_whole(fmt, t, x), g),
{
    broadcast use {Mem::lemma_at, lemma_push, lemma_none};

    let (a, b, c, e, f) = (
        quant_kernels::ops_loaded(t),
        quant_kernels::ops_spare(t),
        quant_kernels::ops_halves(fmt, t, x),
        quant_kernels::ops_fold(t),
        quant_kernels::ops_stored(t),
    );
    lemma_halves(fmt, t, x, g);
    assert forall|i: int| 0 <= i < a.len() implies (#[trigger] a[i]).runs(g) by {
        lemma_operand(ACC, (64 * i) as i32, Conv::Plain, g);
    }
    assert forall|i: int| 0 <= i < f.len() implies (#[trigger] f[i]).runs(g) by {
        lemma_operand(ACC, (64 * i) as i32, Conv::Plain, g);
    }
    assert(all_run(a, g));
    assert(all_run(b, g));
    assert(all_run(e, g));
    assert(all_run(f, g));
    lemma_cat(a, b, g);
    lemma_cat(a + b, c, g);
    lemma_cat(a + b + c, e, g);
    lemma_cat(a + b + c + e, f, g);
}

/// An index vector loaded.
pub broadcast proof fn lemma_index(z: u8, off: i32, g: Map<Gpr, int>)
    requires
        based(g),
        off % 64 == 0,
    ensures
        #[trigger] quant_tables::op_index(z, off).runs(g),
{
    lemma_operand(CONSTS, off, Conv::Plain, g);
}

/// A broadcast constant for an operand.
pub broadcast proof fn lemma_with(f: Two, z: u8, a: u8, off: i32, g: Map<Gpr, int>)
    requires
        based(g),
        off % 4 == 0,
    ensures
        #[trigger] quant_tables::op_with(f, z, a, off).runs(g),
{
    broadcast use Mem::lemma_at;

}

/// A vector of the constants for an operand.
pub broadcast proof fn lemma_shift(off: i32, g: Map<Gpr, int>)
    requires
        based(g),
        off % 64 == 0,
    ensures
        #[trigger] vector::operand_runs(Src::Mem(Mem::at(CONSTS, off)), g),
{
    broadcast use Mem::lemma_at;

}

/// The instructions of the preparations.
pub proof fn lemma_expanded(v: u8, off: i32, table: i32, g: Map<Gpr, int>)
    requires
        based(g),
        off % 64 == 0,
        table % 64 == 0,
    ensures
        all_run(quant_tables::ops_expanded(v, off, table), g),
{
    broadcast use {lemma_index, lemma_with, lemma_shift, lemma_push, lemma_none};

    reveal(quant_tables::ops_expanded);
    lemma_operand(TAB, table, Conv::Plain, g);
}

pub proof fn lemma_k4(g: Map<Gpr, int>)
    requires
        based(g),
    ensures
        all_run(quant_tables::ops_k4_forms(), g),
        all_run(quant_tables::ops_kept(20), g),
        all_run(
            quant_tables::ops_kept(21) + quant_tables::ops_k4_scaled()
                + quant_tables::ops_k4_table(),
            g,
        ),
{
    assert(all_run(quant_tables::ops_k4_picked(), g)) by {
        broadcast use {lemma_index, lemma_with, lemma_shift, lemma_push, lemma_none};

        reveal(quant_tables::ops_k4_picked);
    }
    assert(all_run(quant_tables::ops_k4_three(), g)) by {
        broadcast use {lemma_index, lemma_with, lemma_shift, lemma_push, lemma_none};

        reveal(quant_tables::ops_k4_three);
    }
    lemma_cat(quant_tables::ops_k4_picked(), quant_tables::ops_k4_three(), g);
    assert(all_run(quant_tables::ops_kept(20), g) && all_run(quant_tables::ops_kept(21), g)) by {
        broadcast use {lemma_index, lemma_with, lemma_shift, lemma_push, lemma_none};

    }
    assert(all_run(quant_tables::ops_k4_scaled(), g)) by {
        broadcast use {lemma_index, lemma_with, lemma_shift, lemma_push, lemma_none};

        reveal(quant_tables::ops_k4_scaled);
    }
    lemma_expanded(19, quant::C_IDX_EXPAND, quant::TAB_SC, g);
    lemma_expanded(19, quant::C_IDX_EXPAND_HI, quant::TAB_MN, g);
    lemma_cat(
        quant_tables::ops_expanded(19, quant::C_IDX_EXPAND, quant::TAB_SC),
        quant_tables::ops_expanded(19, quant::C_IDX_EXPAND_HI, quant::TAB_MN),
        g,
    );
    lemma_cat(quant_tables::ops_kept(21), quant_tables::ops_k4_scaled(), g);
    lemma_cat(
        quant_tables::ops_kept(21) + quant_tables::ops_k4_scaled(),
        quant_tables::ops_k4_table(),
        g,
    );
}

pub proof fn lemma_prep_q6k(g: Map<Gpr, int>)
    requires
        based(g),
    ensures
        all_run(quant_tables::ops_q6k(), g),
{
    broadcast use {lemma_index, lemma_with, lemma_shift, lemma_push, lemma_none};

    reveal(quant_tables::ops_q6k_scaled);
    reveal(quant_tables::ops_q6k_table);
    lemma_operand(TAB, quant::TAB_SC, Conv::Plain, g);
    lemma_operand(TAB, quant::TAB_MN, Conv::Plain, g);
    lemma_cat(quant_tables::ops_q6k_scaled(), quant_tables::ops_q6k_table(), g);
}

pub proof fn lemma_lane(i: int, g: Map<Gpr, int>)
    ensures
        all_run(quant_tables::ops_q8_0_lane(i), g),
{
    broadcast use {lemma_index, lemma_with, lemma_shift, lemma_push, lemma_none};

}

pub proof fn lemma_prep_iq4xs(g: Map<Gpr, int>)
    requires
        based(g),
    ensures
        all_run(quant_tables::ops_iq4xs(), g),
{
    let (a, b, c, e) = (
        quant_tables::ops_iq4xs_low(),
        quant_tables::ops_iq4xs_high(),
        quant_tables::ops_iq4xs_scaled(),
        quant_tables::ops_expanded(19, quant::C_IDX_EXPAND, quant::TAB_SC),
    );
    assert(all_run(a, g)) by {
        broadcast use {lemma_index, lemma_with, lemma_shift, lemma_push, lemma_none};

        reveal(quant_tables::ops_iq4xs_low);
    }
    assert(all_run(b, g)) by {
        broadcast use {lemma_index, lemma_with, lemma_shift, lemma_push, lemma_none};

        reveal(quant_tables::ops_iq4xs_high);
    }
    assert(all_run(c, g)) by {
        broadcast use {lemma_index, lemma_with, lemma_shift, lemma_push, lemma_none};

        reveal(quant_tables::ops_iq4xs_scaled);
    }
    lemma_expanded(19, quant::C_IDX_EXPAND, quant::TAB_SC, g);
    lemma_cat(a, b, g);
    lemma_cat(a + b, c, g);
    lemma_cat(a + b + c, e, g);
}

} // verus!
