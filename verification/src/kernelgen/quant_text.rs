//! The text of the quantized kernels is that of the lines they run as.
use crate::kernelgen::dots;
use crate::kernelgen::listing::Listing;
use crate::kernelgen::machine::{lines_of, Line};
use crate::kernelgen::quant;
use crate::kernelgen::quant::{Act, Prep, C_IDX_EXPAND, C_IDX_EXPAND_HI, TAB_MN, TAB_SC};
use crate::kernelgen::quant_runs;
use crate::kernelgen::quant_tables;
use crate::kernelgen::vector::{Op, Two};
use crate::mvex::reg::{Conv, Mem, Zmm};
use vstd::prelude::*;

verus! {

/// One list of instructions after another.
pub proof fn lemma_cat(l: Listing, a: Seq<Op>, b: Seq<Op>)
    ensures
        l.lines(lines_of(a + b)) == l.lines(lines_of(a)).lines(lines_of(b)),
{
    assert(lines_of(a + b) =~= lines_of(a) + lines_of(b));
    l.lemma_lines(lines_of(a), lines_of(b));
}

/// One more instruction.
pub broadcast proof fn lemma_written(l: Listing, ops: Seq<Op>, op: Op)
    ensures
        #[trigger] l.lines(lines_of(ops.push(op))) == l.lines(lines_of(ops)).i(op.insn()),
{
    assert(lines_of(ops.push(op)) =~= lines_of(ops).push(Line::Op { op }));
    l.lemma_push(lines_of(ops), Line::Op { op });
}

/// No instruction.
pub broadcast proof fn lemma_blank(l: Listing)
    ensures
        #[trigger] l.lines(lines_of(Seq::<Op>::empty())) == l,
{
    assert(lines_of(Seq::<Op>::empty()) =~= Seq::<Line>::empty());
    l.lemma_none();
}

/// The first `n` loads, as they are written.
spec fn loaded(l: Listing, loads: Seq<(u8, int)>, aligned: bool, conv: Conv, n: int) -> Listing
    decreases n,
{
    if n <= 0 {
        l
    } else {
        let before = loaded(l, loads, aligned, conv, n - 1);
        if aligned {
            before.bytes_aligned(loads[n - 1].0, loads[n - 1].1 as i32, conv)
        } else {
            before.bytes_unaligned(loads[n - 1].0, loads[n - 1].1 as i32, conv)
        }
    }
}

proof fn lemma_load(l: Listing, z: u8, disp: int, aligned: bool, conv: Conv)
    requires
        0 <= disp <= 4096,
        !(conv is Plain),
    ensures
        l.lines(lines_of(dots::ops_load(z, disp, aligned, conv))) == (if aligned {
            l.bytes_aligned(z, disp as i32, conv)
        } else {
            l.bytes_unaligned(z, disp as i32, conv)
        }),
{
    broadcast use {lemma_written, lemma_blank};

    reveal(Listing::bytes_aligned);
    reveal(Listing::bytes_unaligned);
    let ops = dots::ops_load(z, disp, aligned, conv);
    if aligned {
        assert(ops =~= Seq::<Op>::empty().push(ops[0]));
    } else {
        assert(ops =~= Seq::<Op>::empty().push(ops[0]).push(ops[1]));
    }
}

proof fn lemma_loaded(l: Listing, loads: Seq<(u8, int)>, aligned: bool, conv: Conv, n: int)
    requires
        0 <= n <= loads.len(),
        forall|i: int| 0 <= i < loads.len() ==> 0 <= (#[trigger] loads[i]).1 <= 4096,
        !(conv is Plain),
    ensures
        l.lines(lines_of(dots::ops_loads(loads.take(n), aligned, conv))) == loaded(
            l,
            loads,
            aligned,
            conv,
            n,
        ),
    decreases n,
{
    broadcast use lemma_blank;

    if n == 0 {
        assert(dots::ops_loads(loads.take(0), aligned, conv) =~= Seq::<Op>::empty());
    } else {
        let s = loads.take(n);
        assert(s.drop_last() =~= loads.take(n - 1));
        assert(s.last() == loads[n - 1]);
        lemma_loaded(l, loads, aligned, conv, n - 1);
        let a = dots::ops_loads(s.drop_last(), aligned, conv);
        let b = dots::ops_load(s.last().0, s.last().1, aligned, conv);
        lemma_cat(l, a, b);
        lemma_load(l.lines(lines_of(a)), s.last().0, s.last().1, aligned, conv);
    }
}

/// The loads of a half are written one after another.
proof fn lemma_loads(l: Listing, loads: Seq<(u8, int)>, aligned: bool, conv: Conv)
    requires
        forall|i: int| 0 <= i < loads.len() ==> 0 <= (#[trigger] loads[i]).1 <= 4096,
        !(conv is Plain),
    ensures
        l.lines(lines_of(dots::ops_loads(loads, aligned, conv))) == loaded(
            l,
            loads,
            aligned,
            conv,
            loads.len() as int,
        ),
{
    lemma_loaded(l, loads, aligned, conv, loads.len() as int);
    assert(loads.take(loads.len() as int) =~= loads);
}

proof fn lemma_nibbles(l: Listing, pairs: Seq<(Zmm, Zmm)>)
    ensures
        l.split_nibbles(pairs) == l.lines(lines_of(dots::ops_nibbles(pairs))),
{
    reveal(Listing::split_nibbles);
    reveal(dots::ops_nibbles);
    let (a, b, c) = (dots::ops_high(pairs), dots::ops_floor(pairs), dots::ops_low(pairs));
    l.lemma_ops(quant::nibble_high(pairs), a);
    let l1 = l.lines(lines_of(a));
    l1.lemma_ops(quant::nibble_floor(pairs), b);
    let l2 = l1.lines(lines_of(b));
    l2.lemma_ops(quant::nibble_low(pairs), c);
    lemma_cat(l, a, b);
    lemma_cat(l, a + b, c);
}

proof fn lemma_fmas(l: Listing, t: u8, batch: Seq<(Zmm, i32)>, x: Act)
    ensures
        l.fmas(t, batch, x) == l.lines(lines_of(dots::ops_fmas(t, batch, x))),
    decreases batch.len(),
{
    broadcast use lemma_blank;

    if batch.len() == 0 {
        assert(dots::ops_fmas(t, batch, x) =~= Seq::<Op>::empty());
    } else {
        let s = batch.drop_last();
        lemma_fmas(l, t, s, x);
        let a = dots::ops_fmas(t, s, x);
        let b = dots::ops_fma_row(batch.last().0, batch.last().1, t, x);
        lemma_cat(l, a, b);
        l.lines(lines_of(a)).lemma_ops(
            quant::fma_row(batch.last().0, batch.last().1, t, x),
            b,
        );
    }
}

proof fn lemma_dot(l: Listing, t: u8, batch: Seq<(Zmm, i32)>, minuend: bool, x: Act)
    ensures
        l.dot(t, batch, minuend, x) == l.lines(lines_of(dots::ops_dot(t, batch, minuend, x))),
{
    reveal(Listing::dot);
    reveal(dots::ops_dot);
    let (a, b, c) = (
        dots::ops_scale(batch),
        dots::ops_offset(batch),
        dots::ops_fmas(t, batch, x),
    );
    l.lemma_ops(quant::scale(batch), a);
    let l1 = l.lines(lines_of(a));
    if minuend {
        l1.lemma_ops(quant::offset(batch), b);
        lemma_cat(l, a, b);
        lemma_cat(l, a + b, c);
        lemma_fmas(l1.lines(lines_of(b)), t, batch, x);
    } else {
        lemma_cat(l, a, c);
        lemma_fmas(l1, t, batch, x);
    }
}

proof fn lemma_add(l: Listing, pairs: Seq<(Zmm, Zmm)>)
    ensures
        l.all(quant::add_high_bits(pairs)) == l.lines(lines_of(dots::ops_add(pairs))),
{
    l.lemma_ops(quant::add_high_bits(pairs), dots::ops_add(pairs));
}

proof fn lemma_fields_scaled(l: Listing, hs: Seq<(Zmm, u8)>, width: u8, n: u8)
    ensures
        l.fields_scaled(hs, width, n) == l.lines(lines_of(dots::ops_fields_scaled(hs, width, n))),
    decreases n,
{
    broadcast use lemma_blank;

    if n <= 1 {
        assert(dots::ops_fields_scaled(hs, width, n) =~= Seq::<Op>::empty());
    } else {
        let m = (n - 1) as u8;
        lemma_fields_scaled(l, hs, width, m);
        let a = dots::ops_fields_scaled(hs, width, m);
        let b = dots::ops_field_scaled(hs, width, m);
        lemma_cat(l, a, b);
        l.lines(lines_of(a)).lemma_ops(quant::field_scaled(hs, width, m), b);
    }
}

proof fn lemma_fields_floor(l: Listing, hs: Seq<(Zmm, u8)>, width: u8, n: u8)
    ensures
        l.fields_floor(hs, width, n) == l.lines(lines_of(dots::ops_fields_floor(hs, width, n))),
    decreases n,
{
    broadcast use lemma_blank;

    if n <= 1 {
        assert(dots::ops_fields_floor(hs, width, n) =~= Seq::<Op>::empty());
    } else {
        let m = (n - 1) as u8;
        lemma_fields_floor(l, hs, width, m);
        let a = dots::ops_fields_floor(hs, width, m);
        let b = dots::ops_field_floor(hs, width, m);
        lemma_cat(l, a, b);
        l.lines(lines_of(a)).lemma_ops(quant::field_floor(hs, width, m), b);
    }
}

proof fn lemma_fields_low(l: Listing, hs: Seq<(Zmm, u8)>, width: u8, n: u8)
    ensures
        l.fields_low(hs, width, n) == l.lines(lines_of(dots::ops_fields_low(hs, width, n))),
    decreases n,
{
    broadcast use lemma_blank;

    if n == 0 {
        assert(dots::ops_fields_low(hs, width, n) =~= Seq::<Op>::empty());
    } else {
        let m = (n - 1) as u8;
        lemma_fields_low(l, hs, width, m);
        let a = dots::ops_fields_low(hs, width, m);
        let b = dots::ops_field_low(hs, width, m);
        lemma_cat(l, a, b);
        l.lines(lines_of(a)).lemma_ops(quant::field_low(hs, width, m), b);
    }
}

proof fn lemma_fields(l: Listing, hs: Seq<(Zmm, u8)>, width: u8)
    ensures
        l.fields_of(hs, width) == l.lines(lines_of(dots::ops_fields(hs, width))),
{
    reveal(Listing::fields_of);
    reveal(dots::ops_fields);
    let n = (8u8 / width) as u8;
    let a = dots::ops_fields_scaled(hs, width, n);
    let b = dots::ops_fields_floor(hs, width, n);
    let c = dots::ops_fields_low(hs, width, (n - 1) as u8);
    lemma_fields_scaled(l, hs, width, n);
    lemma_fields_floor(l.lines(lines_of(a)), hs, width, n);
    lemma_fields_low(l.lines(lines_of(a)).lines(lines_of(b)), hs, width, (n - 1) as u8);
    lemma_cat(l, a, b);
    lemma_cat(l, a + b, c);
}

/// The text of half of a Q4_K superblock.
pub proof fn law_q4k_half(l: Listing, half: i32, t: u8, x: Act)
    requires
        half == 0 || half == 1,
    ensures
        l.q4k_half(half, t, x) == l.lines(lines_of(quant_runs::q4k_ops(half, t, x))),
{
    reveal(Listing::q4k_half);
    reveal(quant_runs::q4k_loads);
    reveal(quant_runs::q4k_pairs);
    reveal(quant_runs::q4k_batch);
    let loads = quant_runs::q4k_loads(half as int);
    let a = dots::ops_loads(loads, true, Conv::U8);
    let b = dots::ops_nibbles(quant_runs::q4k_pairs());
    lemma_loads(l, loads, true, Conv::U8);
    assert(loaded(l, loads, true, Conv::U8, 4) == l.bytes_aligned(
        8,
        (16 + 64 * half + 0) as i32,
        Conv::U8,
    ).bytes_aligned(9, (16 + 64 * half + 16) as i32, Conv::U8).bytes_aligned(
        10,
        (16 + 64 * half + 32) as i32,
        Conv::U8,
    ).bytes_aligned(11, (16 + 64 * half + 48) as i32, Conv::U8)) by {
        reveal_with_fuel(loaded, 5);
    }
    let l1 = l.lines(lines_of(a));
    lemma_nibbles(l1, quant_runs::q4k_pairs());
    lemma_cat(l, a, b);
    lemma_dot(l1.lines(lines_of(b)), t, quant_runs::q4k_batch(half), true, x);
    lemma_cat(
        l,
        quant_runs::q4k_quants(half),
        dots::ops_dot(t, quant_runs::q4k_batch(half), true, x),
    );
}

/// The text of half of a Q5_K superblock.
pub proof fn law_q5k_half(l: Listing, half: i32, t: u8, x: Act)
    requires
        half == 0 || half == 1,
    ensures
        l.q5k_half(half, t, x) == l.lines(lines_of(quant_runs::q5k_ops(half, t, x))),
{
    reveal(Listing::q5k_half);
    reveal(quant_runs::q5k_loads);
    reveal(quant_runs::q5k_pairs);
    reveal(quant_runs::q5k_highs);
    reveal(quant_runs::q5k_batch);
    let loads = quant_runs::q5k_loads(half as int);
    let a = dots::ops_loads(loads, true, Conv::U8);
    let b = dots::ops_nibbles(quant_runs::q5k_pairs());
    let c = dots::ops_add(quant_runs::q5k_highs(half));
    lemma_loads(l, loads, true, Conv::U8);
    assert(loaded(l, loads, true, Conv::U8, 4) == l.bytes_aligned(
        8,
        (48 + 64 * half + 0) as i32,
        Conv::U8,
    ).bytes_aligned(9, (48 + 64 * half + 16) as i32, Conv::U8).bytes_aligned(
        28,
        (48 + 64 * half + 32) as i32,
        Conv::U8,
    ).bytes_aligned(29, (48 + 64 * half + 48) as i32, Conv::U8)) by {
        reveal_with_fuel(loaded, 5);
    }
    let l1 = l.lines(lines_of(a));
    lemma_nibbles(l1, quant_runs::q5k_pairs());
    lemma_cat(l, a, b);
    let l2 = l1.lines(lines_of(b));
    lemma_add(l2, quant_runs::q5k_highs(half));
    lemma_cat(l, a + b, c);
    lemma_dot(l2.lines(lines_of(c)), t, quant_runs::q5k_batch(half), true, x);
    lemma_cat(
        l,
        quant_runs::q5k_quants(half),
        dots::ops_dot(t, quant_runs::q5k_batch(half), true, x),
    );
}

/// The text of the fifth bits of a Q5_K superblock.
pub proof fn law_q5k_bits(l: Listing)
    ensures
        l.bytes_aligned(12, 16, Conv::U8).bytes_aligned(13, 32, Conv::U8).fields_of(
            seq![(Zmm(12), 14u8), (Zmm(13), 21u8)],
            1,
        ) == l.lines(lines_of(quant_runs::q5k_bits())),
{
    reveal(quant_runs::q5k_top_loads);
    reveal(quant_runs::q5k_tops);
    let loads = quant_runs::q5k_top_loads();
    let a = dots::ops_loads(loads, true, Conv::U8);
    lemma_loads(l, loads, true, Conv::U8);
    assert(loaded(l, loads, true, Conv::U8, 2) == l.bytes_aligned(12, 16, Conv::U8).bytes_aligned(
        13,
        32,
        Conv::U8,
    )) by {
        reveal_with_fuel(loaded, 3);
    }
    lemma_fields(l.lines(lines_of(a)), quant_runs::q5k_tops(), 1);
    lemma_cat(l, a, dots::ops_fields(quant_runs::q5k_tops(), 1));
}

/// The text of half of a Q6_K superblock.
pub proof fn law_q6k_half(l: Listing, half: i32, t: u8, x: Act)
    requires
        half == 0 || half == 1,
    ensures
        l.q6k_half(half, t, x) == l.lines(lines_of(quant_runs::q6k_ops(half, t, x))),
{
    reveal(Listing::q6k_half);
    reveal(quant_runs::q6k_loads);
    reveal(quant_runs::q6k_tops);
    reveal(quant_runs::q6k_pairs);
    reveal(quant_runs::q6k_highs);
    reveal(quant_runs::q6k_batch);
    let loads = quant_runs::q6k_loads(half as int);
    let a = dots::ops_loads(loads, false, Conv::U8);
    let f = dots::ops_fields(quant_runs::q6k_tops(), 2);
    let b = dots::ops_nibbles(quant_runs::q6k_pairs());
    let c = dots::ops_add(quant_runs::q6k_highs());
    lemma_loads(l, loads, false, Conv::U8);
    assert(loaded(l, loads, false, Conv::U8, 6) == l.bytes_unaligned(
        8,
        (64 * half + 0) as i32,
        Conv::U8,
    ).bytes_unaligned(9, (64 * half + 16) as i32, Conv::U8).bytes_unaligned(
        10,
        (64 * half + 32) as i32,
        Conv::U8,
    ).bytes_unaligned(11, (64 * half + 48) as i32, Conv::U8).bytes_unaligned(
        12,
        (128 + 32 * half) as i32,
        Conv::U8,
    ).bytes_unaligned(13, (144 + 32 * half) as i32, Conv::U8)) by {
        reveal_with_fuel(loaded, 7);
    }
    let l1 = l.lines(lines_of(a));
    lemma_fields(l1, quant_runs::q6k_tops(), 2);
    lemma_cat(l, a, f);
    let l2 = l1.lines(lines_of(f));
    lemma_nibbles(l2, quant_runs::q6k_pairs());
    lemma_cat(l, a + f, b);
    let l3 = l2.lines(lines_of(b));
    lemma_add(l3, quant_runs::q6k_highs());
    lemma_cat(l, a + f + b, c);
    lemma_dot(l3.lines(lines_of(c)), t, quant_runs::q6k_batch(half), true, x);
    lemma_cat(
        l,
        quant_runs::q6k_quants(half),
        dots::ops_dot(t, quant_runs::q6k_batch(half), true, x),
    );
}

/// The text of half of eight Q8_0 blocks.
pub proof fn law_q8_0_half(l: Listing, half: i32, t: u8, x: Act)
    requires
        half == 0 || half == 1,
    ensures
        l.q8_0_half(half, t, x) == l.lines(lines_of(quant_runs::q8_0_ops(half, t, x))),
{
    reveal(Listing::q8_0_half);
    reveal(quant_runs::q8_0_loads);
    reveal(quant_runs::q8_0_batch);
    let loads = quant_runs::q8_0_loads(half as int);
    lemma_loads(l, loads, false, Conv::S8);
    assert(loaded(l, loads, false, Conv::S8, 8) == l.bytes_unaligned(
        8,
        (34 * (4 * half + 0) + 2) as i32,
        Conv::S8,
    ).bytes_unaligned(9, (34 * (4 * half + 0) + 18) as i32, Conv::S8).bytes_unaligned(
        10,
        (34 * (4 * half + 1) + 2) as i32,
        Conv::S8,
    ).bytes_unaligned(11, (34 * (4 * half + 1) + 18) as i32, Conv::S8).bytes_unaligned(
        12,
        (34 * (4 * half + 2) + 2) as i32,
        Conv::S8,
    ).bytes_unaligned(13, (34 * (4 * half + 2) + 18) as i32, Conv::S8).bytes_unaligned(
        14,
        (34 * (4 * half + 3) + 2) as i32,
        Conv::S8,
    ).bytes_unaligned(15, (34 * (4 * half + 3) + 18) as i32, Conv::S8)) by {
        reveal_with_fuel(loaded, 9);
    }
    let a = quant_runs::q8_0_quants(half);
    lemma_dot(l.lines(lines_of(a)), t, quant_runs::q8_0_batch(half), false, x);
    lemma_cat(l, a, dots::ops_dot(t, quant_runs::q8_0_batch(half), false, x));
}

/// The first `n` instructions, as they are written.
spec fn written(l: Listing, ops: Seq<Op>, n: int) -> Listing
    decreases n,
{
    if n <= 0 {
        l
    } else {
        written(l, ops, n - 1).i(ops[n - 1].insn())
    }
}

proof fn lemma_first(l: Listing, ops: Seq<Op>, n: int)
    requires
        0 <= n <= ops.len(),
    ensures
        l.lines(lines_of(ops.take(n))) == written(l, ops, n),
    decreases n,
{
    broadcast use {lemma_written, lemma_blank};

    if n == 0 {
        assert(ops.take(0) =~= Seq::<Op>::empty());
    } else {
        lemma_first(l, ops, n - 1);
        assert(ops.take(n) =~= ops.take(n - 1).push(ops[n - 1]));
    }
}

/// The text of the values of the nibbles of IQ4_XS.
#[verifier::rlimit(40)]
proof fn lemma_values(l: Listing)
    ensures
        l.iq4xs_values() == l.lines(lines_of(quant_runs::iq4xs_indices())).lines(
            lines_of(quant_runs::iq4xs_values()),
        ),
{
    reveal(Listing::iq4xs_values);
    reveal(quant_runs::iq4xs_indices);
    reveal(quant_runs::iq4xs_values);
    let a = quant_runs::iq4xs_indices();
    let b = quant_runs::iq4xs_values();
    lemma_first(l, a, 8);
    assert(a.take(8) =~= a);
    let l1 = l.lines(lines_of(a));
    lemma_first(l1, b, 8);
    assert(b.take(8) =~= b);
    reveal_with_fuel(written, 9);
}

/// The text of half of an IQ4_XS superblock.
pub proof fn law_iq4xs_half(l: Listing, half: i32, t: u8, x: Act)
    requires
        half == 0 || half == 1,
    ensures
        l.iq4xs_half(half, t, x) == l.lines(lines_of(quant_runs::iq4xs_ops(half, t, x))),
{
    reveal(Listing::iq4xs_half);
    reveal(quant_runs::iq4xs_loads);
    reveal(quant_runs::q4k_pairs);
    reveal(quant_runs::iq4xs_batch);
    let loads = quant_runs::iq4xs_loads(half as int);
    let a = dots::ops_loads(loads, false, Conv::U8);
    let b = dots::ops_nibbles(quant_runs::q4k_pairs());
    let (c, e) = (quant_runs::iq4xs_indices(), quant_runs::iq4xs_values());
    lemma_loads(l, loads, false, Conv::U8);
    assert(loaded(l, loads, false, Conv::U8, 4) == l.bytes_unaligned(
        8,
        (8 + 64 * half + 0) as i32,
        Conv::U8,
    ).bytes_unaligned(9, (8 + 64 * half + 16) as i32, Conv::U8).bytes_unaligned(
        10,
        (8 + 64 * half + 32) as i32,
        Conv::U8,
    ).bytes_unaligned(11, (8 + 64 * half + 48) as i32, Conv::U8)) by {
        reveal_with_fuel(loaded, 5);
    }
    let l1 = l.lines(lines_of(a));
    lemma_nibbles(l1, quant_runs::q4k_pairs());
    lemma_cat(l, a, b);
    let l2 = l1.lines(lines_of(b));
    lemma_values(l2);
    lemma_cat(l, a + b, c);
    lemma_cat(l, a + b + c, e);
    lemma_dot(
        l2.lines(lines_of(c)).lines(lines_of(e)),
        t,
        quant_runs::iq4xs_batch(half),
        false,
        x,
    );
    lemma_cat(
        l,
        quant_runs::iq4xs_quants(half),
        dots::ops_dot(t, quant_runs::iq4xs_batch(half), false, x),
    );
}

/// The line that puts a small number in eax.
pub open spec fn small(n: int) -> Seq<Line> {
    Seq::<Line>::empty().push(Line::Small { n })
}

/// The preparation of Q4_K and Q5_K.
pub open spec fn prep_k4_lines() -> Seq<Line> {
    lines_of(quant_tables::ops_k4_forms()) + small(240) + lines_of(quant_tables::ops_kept(20))
        + small(61440) + lines_of(
        quant_tables::ops_kept(21) + quant_tables::ops_k4_scaled() + quant_tables::ops_k4_table(),
    )
}

/// The first `n` lanes of the preparation of Q8_0.
#[verifier::opaque]
pub open spec fn lane_lines(n: int) -> Seq<Line>
    decreases n,
{
    if n <= 0 {
        Seq::empty()
    } else {
        lane_lines(n - 1) + small(quant_tables::lane_mask(n - 1)) + lines_of(
            quant_tables::ops_q8_0_lane(n - 1),
        )
    }
}

/// The preparation of Q8_0.
pub open spec fn prep_q8_0_lines() -> Seq<Line> {
    lines_of(Seq::<Op>::empty().push(quant_tables::op_two(Two::Xor, 16, 16, 16))) + lane_lines(8)
        + lines_of(quant_tables::ops_expanded(16, C_IDX_EXPAND, TAB_SC))
}

/// The lines of a preparation.
pub open spec fn prep_lines(prep: Prep) -> Seq<Line> {
    match prep {
        Prep::K4 => prep_k4_lines(),
        Prep::Q6K => lines_of(quant_tables::ops_q6k()),
        Prep::Q80 => prep_q8_0_lines(),
        Prep::Iq4xs => lines_of(quant_tables::ops_iq4xs()),
    }
}

proof fn lemma_small(l: Listing, n: int)
    ensures
        l.lines(small(n)) == l.lit("    mov $"@).num(n).lit(", %eax\n"@),
{
    l.lemma_none();
    l.lemma_push(Seq::empty(), Line::Small { n });
}

proof fn lemma_expanded(l: Listing, v: u8, off: i32, table: i32)
    ensures
        l.lines(lines_of(quant_tables::ops_expanded(v, off, table))) == l.expanded(v, off, table),
{
    broadcast use {lemma_written, lemma_blank};

    reveal(quant_tables::ops_expanded);
    reveal(Listing::expanded);
}

proof fn lemma_k4_forms(l: Listing)
    ensures
        l.lines(lines_of(quant_tables::ops_k4_forms())) == l.lines(
            lines_of(quant_tables::ops_k4_picked()),
        ).lines(lines_of(quant_tables::ops_k4_three())),
{
    lemma_cat(l, quant_tables::ops_k4_picked(), quant_tables::ops_k4_three());
}

/// The text of the preparation of Q4_K and Q5_K.
proof fn lemma_k4(l: Listing)
    ensures
        l.prep_k4() == l.lines(prep_k4_lines()),
{
    let p1 = lines_of(quant_tables::ops_k4_forms());
    let p2 = lines_of(quant_tables::ops_kept(20));
    let (k, s, e) = (
        quant_tables::ops_kept(21),
        quant_tables::ops_k4_scaled(),
        quant_tables::ops_k4_table(),
    );
    let p3 = lines_of(k + s + e);
    l.lemma_lines(p1, small(240));
    l.lemma_lines(p1 + small(240), p2);
    l.lemma_lines(p1 + small(240) + p2, small(61440));
    l.lemma_lines(p1 + small(240) + p2 + small(61440), p3);
    lemma_k4_forms(l);
    let l1 = l.lines(p1);
    lemma_small(l1, 240);
    let l2 = l1.lines(small(240));
    let l3 = l2.lines(p2);
    lemma_small(l3, 61440);
    let l4 = l3.lines(small(61440));
    lemma_cat(l4, k, s);
    lemma_cat(l4, k + s, e);
    let l5 = l4.lines(lines_of(k)).lines(lines_of(s));
    let (e1, e2) = (
        quant_tables::ops_expanded(19, C_IDX_EXPAND, TAB_SC),
        quant_tables::ops_expanded(19, C_IDX_EXPAND_HI, TAB_MN),
    );
    lemma_cat(l5, e1, e2);
    lemma_expanded(l5, 19, C_IDX_EXPAND, TAB_SC);
    lemma_expanded(l5.lines(lines_of(e1)), 19, C_IDX_EXPAND_HI, TAB_MN);
    reveal(Listing::prep_k4);
    reveal(Listing::kmask);
    reveal(Listing::store_expanded);
    reveal(Listing::bytes_unaligned);
    reveal(quant_tables::ops_k4_picked);
    reveal(quant_tables::ops_k4_three);
    reveal(quant_tables::ops_k4_scaled);
    broadcast use {lemma_written, lemma_blank};

}

/// The text of the preparation of Q6_K.
proof fn lemma_q6k(l: Listing)
    ensures
        l.prep_q6k() == l.lines(lines_of(quant_tables::ops_q6k())),
{
    lemma_cat(l, quant_tables::ops_q6k_scaled(), quant_tables::ops_q6k_table());
    reveal(Listing::prep_q6k);
    reveal(Listing::bytes_unaligned);
    reveal(quant_tables::ops_q6k_scaled);
    reveal(quant_tables::ops_q6k_table);
    broadcast use {lemma_written, lemma_blank};

}

/// The text of the preparation of IQ4_XS.
proof fn lemma_iq4xs(l: Listing)
    ensures
        l.prep_iq4xs() == l.lines(lines_of(quant_tables::ops_iq4xs())),
{
    let (a, b, c, e) = (
        quant_tables::ops_iq4xs_low(),
        quant_tables::ops_iq4xs_high(),
        quant_tables::ops_iq4xs_scaled(),
        quant_tables::ops_expanded(19, C_IDX_EXPAND, TAB_SC),
    );
    lemma_cat(l, a, b);
    lemma_cat(l, a + b, c);
    lemma_cat(l, a + b + c, e);
    lemma_expanded(
        l.lines(lines_of(a)).lines(lines_of(b)).lines(lines_of(c)),
        19,
        C_IDX_EXPAND,
        TAB_SC,
    );
    reveal(Listing::prep_iq4xs);
    reveal(Listing::store_expanded);
    reveal(Listing::bytes_unaligned);
    reveal(quant_tables::ops_iq4xs_low);
    reveal(quant_tables::ops_iq4xs_high);
    reveal(quant_tables::ops_iq4xs_scaled);
    broadcast use {lemma_written, lemma_blank};

}

/// One lane of the preparation of Q8_0, as it is written.
#[verifier::opaque]
spec fn laned(l: Listing, bits: i32, disp: int) -> Listing {
    l.kmask(bits).i(
        (Op::Low {
            z: Zmm(16),
            m: Mem::at(quant::BLK, disp as i32),
            conv: Conv::F16,
            ints: false,
            masked: true,
        }).insn(),
    ).i(
        (Op::High {
            z: Zmm(16),
            m: Mem::at(quant::BLK, (disp + 64) as i32),
            conv: Conv::F16,
            ints: false,
            masked: true,
        }).insn(),
    )
}

proof fn lemma_lane(l: Listing, n: int)
    requires
        1 <= n <= 8,
    ensures
        l.lines(lane_lines(n)) == laned(
            l.lines(lane_lines(n - 1)),
            quant_tables::lane_mask(n - 1) as i32,
            34 * (n - 1),
        ),
{
    broadcast use {lemma_written, lemma_blank};

    reveal(lane_lines);
    reveal(laned);
    let m = quant_tables::lane_mask(n - 1);
    let (a, b) = (lane_lines(n - 1), lines_of(quant_tables::ops_q8_0_lane(n - 1)));
    l.lemma_lines(a, small(m));
    l.lemma_lines(a + small(m), b);
    lemma_small(l.lines(a), m);
    reveal(Listing::kmask);
}

proof fn lemma_lanes(l: Listing)
    ensures
        l.lines(lane_lines(8)) == laned(
            laned(
                laned(
                    laned(
                        laned(laned(laned(laned(l, 1, 0), 2, 34), 4, 68), 8, 102),
                        16,
                        136,
                    ),
                    32,
                    170,
                ),
                64,
                204,
            ),
            128,
            238,
        ),
{
    assert(lane_lines(0) =~= Seq::<Line>::empty()) by {
        reveal(lane_lines);
    }
    l.lemma_none();
    lemma_lane(l, 1);
    lemma_lane(l, 2);
    lemma_lane(l, 3);
    lemma_lane(l, 4);
    lemma_lane(l, 5);
    lemma_lane(l, 6);
    lemma_lane(l, 7);
    lemma_lane(l, 8);
}

/// The text of the preparation of Q8_0.
proof fn lemma_q8_0(l: Listing)
    ensures
        l.prep_q8_0() == l.lines(prep_q8_0_lines()),
{
    let a = Seq::<Op>::empty().push(quant_tables::op_two(Two::Xor, 16, 16, 16));
    let e = quant_tables::ops_expanded(16, C_IDX_EXPAND, TAB_SC);
    l.lemma_lines(lines_of(a), lane_lines(8));
    l.lemma_lines(lines_of(a) + lane_lines(8), lines_of(e));
    let l1 = l.lines(lines_of(a));
    lemma_expanded(l1.lines(lane_lines(8)), 16, C_IDX_EXPAND, TAB_SC);
    lemma_lanes(l1);
    assert(l1 == l.clear(16)) by {
        broadcast use {lemma_written, lemma_blank};

    }
    reveal(Listing::prep_q8_0);
    reveal(Listing::store_expanded);
    reveal(laned);
}

/// The text of the preparations.
pub proof fn law_prep(l: Listing, prep: Prep)
    ensures
        l.prep(prep) == l.lines(prep_lines(prep)),
{
    match prep {
        Prep::K4 => lemma_k4(l),
        Prep::Q6K => lemma_q6k(l),
        Prep::Q80 => lemma_q8_0(l),
        Prep::Iq4xs => lemma_iq4xs(l),
    }
}

} // verus!
