//! What the rewritten integer and shuffle instructions compute, in the model
//! of [`crate::xlate::meaning`]: what the AVX-512 instruction does, written
//! as AVX-512 writes it.
use crate::xlate::arith;
use crate::xlate::code::{Mvex, Rm};
use crate::xlate::ev;
use crate::xlate::ev::Ev;
use crate::xlate::insn;
use crate::xlate::insn::Decoded;
use crate::xlate::meaning;
use crate::xlate::meaning::Vm;
use crate::xlate::mnemonic as mn;
use crate::xlate::prog;
use crate::xlate::prog::{Prog, Step};
use crate::xlate::rewrite;
use crate::xlate::shuffle;
use crate::xlate::table;
use crate::xlate::table::Canon;
use vstd::prelude::*;

verus! {

/// A function of two bits, in all bits of two dwords, by its truth table.
pub open spec fn two_bits(f: u8, b: u32, c: u32) -> u32 {
    if f == 0x0 {
        0u32
    } else if f == 0xf {
        0xffff_ffffu32
    } else if f == 0xc {
        b
    } else if f == 0xa {
        c
    } else if f == 0x8 {
        b & c
    } else if f == 0xe {
        b | c
    } else if f == 0x6 {
        b ^ c
    } else if f == 0x2 {
        !b & c
    } else if f == 0x4 {
        !c & b
    } else if f == 0x9 {
        !(b ^ c)
    } else if f == 0x1 {
        !(b | c)
    } else if f == 0x7 {
        !(b & c)
    } else if f == 0x3 {
        !b
    } else if f == 0x5 {
        !c
    } else if f == 0xb {
        !b | c
    } else {
        !c | b
    }
}

/// A function of three bits, in all bits of three dwords: where the first
/// is set, the function that the high half of the truth table is of the
/// other two; elsewhere the one that its low half is.
pub open spec fn three_bits(imm: u8, a: u32, b: u32, c: u32) -> u32 {
    (a & two_bits((imm / 16) as u8, b, c)) | (!a & two_bits((imm % 16) as u8, b, c))
}

/// Entry `at` of a truth table of three bits.
pub open spec fn entry(imm: u8, at: int) -> bool {
    (if at == 0 {
        imm as int
    } else if at == 1 {
        imm as int / 2
    } else if at == 2 {
        imm as int / 4
    } else if at == 3 {
        imm as int / 8
    } else if at == 4 {
        imm as int / 16
    } else if at == 5 {
        imm as int / 32
    } else if at == 6 {
        imm as int / 64
    } else {
        imm as int / 128
    }) % 2 == 1
}

/// The entry that three bits name.
pub open spec fn index(a: bool, b: bool, c: bool) -> int {
    (if a { 4int } else { 0 }) + (if b { 2int } else { 0 }) + (if c { 1int } else { 0 })
}

proof fn lemma_two_bits(f: u8, b: u32, c: u32, j: u32)
    requires
        j < 32,
        f < 16,
    ensures
        meaning::bit32(two_bits(f, b, c), j as int) == entry(
            f,
            index(false, meaning::bit32(b, j as int), meaning::bit32(c, j as int)),
        ),
{
    meaning::lemma_bits32(b, c, j);
    meaning::lemma_bits32(!b, c, j);
    meaning::lemma_bits32(!c, b, j);
    meaning::lemma_bits32(c, c, j);
    meaning::lemma_bits32(b ^ c, b, j);
    meaning::lemma_bits32(b | c, b, j);
    meaning::lemma_bits32(b & c, b, j);
}

/// Every bit of the ternary function is the entry of the truth table that
/// the three bits name.
pub proof fn law_truth_table(imm: u8, a: u32, b: u32, c: u32, j: u32)
    requires
        j < 32,
    ensures
        meaning::bit32(three_bits(imm, a, b, c), j as int) == entry(
            imm,
            index(meaning::bit32(a, j as int), meaning::bit32(b, j as int), meaning::bit32(c, j as int)),
        ),
{
    let hi = two_bits((imm / 16) as u8, b, c);
    let lo = two_bits((imm % 16) as u8, b, c);
    lemma_two_bits((imm / 16) as u8, b, c, j);
    lemma_two_bits((imm % 16) as u8, b, c, j);
    meaning::lemma_bits32(a, hi, j);
    meaning::lemma_bits32(!a, lo, j);
    meaning::lemma_bits32(a & hi, !a & lo, j);
}

/// Whether a function of two bits is computed with the constant of all ones.
pub open spec fn needs_ones(f: u8) -> bool {
    f == 0xf || f == 0x9 || f == 0x1 || f == 0x7 || f == 0x3 || f == 0x5 || f == 0xb || f == 0xd
}

/// Whether the constant of all ones is where the sequence names it.
pub open spec fn has_ones(p: Prog, consts: Seq<Seq<u8>>) -> bool {
    let i = p.index_of(arith::ones()) as int;
    i < consts.len() && consts[i] == arith::ones()
}

/// A two-input function is computed into its register and nothing else.
proof fn lemma_bool2(
    p: Prog,
    consts: Seq<Seq<u8>>,
    vm: Vm,
    t: u8,
    b: u8,
    c: u8,
    table: u8,
    w: u8,
)
    requires
        p.meaning(consts, vm).wf(),
        needs_ones(table & 0xf) ==> has_ones(p, consts),
        t != b,
        t != c,
        w <= 1,
    ensures
        ({
            let before = p.meaning(consts, vm);
            let after = p.bool2(t, b, c, table, w).meaning(consts, vm);
            &&& meaning::only(before, after, t, 0)
            &&& after.k == before.k
            &&& after.z[t] == Seq::new(
                16,
                |i: int| two_bits(table & 0xf, before.z[b][i], before.z[c][i]),
            )
        }),
{
    reveal(Prog::bool2);
    let before = p.meaning(consts, vm);
    let ones = Seq::new(16, |i: int| 0xffff_ffffu32);
    meaning::lemma_words(ones);
    let i = p.index_of(arith::ones());
    let k = Rm::Const(i);
    let f = table & 0xf;
    let want = Seq::new(16, |i: int| two_bits(f, before.z[b][i], before.z[c][i]));
    let after = p.bool2(t, b, c, table, w).meaning(consts, vm);
    let q = p.constant(arith::ones());
    assert(q.steps == p.steps);
    meaning::lemma_shortcuts(table, 0, 0, 0);
    assert forall|x: u32| #[trigger] (x ^ 0xffff_ffff) == !x by {
        meaning::lemma_shortcuts(0, x, 0, 0);
    }
    if f == 0x0 {
        meaning::lemma_zero(p, consts, vm, t, 0, w);
    } else if f == 0xf {
        meaning::lemma_vmov(q, consts, vm, t, k, 0);
    } else if f == 0xc {
        meaning::lemma_vmov(p, consts, vm, t, Rm::Reg(b), w);
    } else if f == 0xa {
        meaning::lemma_vmov(p, consts, vm, t, Rm::Reg(c), w);
    } else if f == 0x8 {
        meaning::lemma_i0f(p, consts, vm, 0xDB, t, b, Rm::Reg(c), w);
    } else if f == 0xe {
        meaning::lemma_i0f(p, consts, vm, 0xEB, t, b, Rm::Reg(c), w);
    } else if f == 0x6 {
        meaning::lemma_i0f(p, consts, vm, 0xEF, t, b, Rm::Reg(c), w);
    } else if f == 0x2 {
        meaning::lemma_i0f(p, consts, vm, 0xDF, t, b, Rm::Reg(c), w);
    } else if f == 0x4 {
        meaning::lemma_i0f(p, consts, vm, 0xDF, t, c, Rm::Reg(b), w);
    } else if f == 0x9 || f == 0x1 || f == 0x7 {
        let op: u8 = if f == 0x9 {
            0xEF
        } else if f == 0x1 {
            0xEB
        } else {
            0xDB
        };
        meaning::lemma_i0f(p, consts, vm, op, t, b, Rm::Reg(c), w);
        let p1 = p.i0f(op, t, b, Rm::Reg(c), 0, w);
        let p2 = p1.constant(arith::ones());
        assert(p1.index_of(arith::ones()) == i);
        assert(p2.steps == p1.steps);
        meaning::lemma_i0f(p2, consts, vm, 0xEF, t, t, k, 0);
    } else if f == 0x3 {
        meaning::lemma_i0f(q, consts, vm, 0xEF, t, b, k, 0);
    } else if f == 0x5 {
        meaning::lemma_i0f(q, consts, vm, 0xEF, t, c, k, 0);
    } else if f == 0xb {
        meaning::lemma_i0f(q, consts, vm, 0xEF, t, b, k, 0);
        meaning::lemma_i0f(q.i0f(0xEF, t, b, k, 0, 0), consts, vm, 0xEB, t, t, Rm::Reg(c), w);
    } else {
        meaning::lemma_i0f(q, consts, vm, 0xEF, t, c, k, 0);
        meaning::lemma_i0f(q.i0f(0xEF, t, c, k, 0, 0), consts, vm, 0xEB, t, t, Rm::Reg(b), w);
    }
    assert(after.z[t] =~= want);
}

/// A two-input function takes the constant of all ones, where it needs one,
/// and nothing else.
proof fn lemma_bool2_takes(p: Prog, t: u8, b: u8, c: u8, table: u8, w: u8)
    ensures
        ({
            let q = p.bool2(t, b, c, table, w);
            &&& q.consts == (if needs_ones(table & 0xf) {
                p.constant(arith::ones()).consts
            } else {
                p.consts
            })
            &&& q.temps == p.temps
            &&& q.kscr == p.kscr
        }),
{
    reveal(Prog::bool2);
    meaning::lemma_shortcuts(table, 0, 0, 0);
}

/// The general case of a ternary function: its result in the first
/// temporary.
proof fn lemma_tern(p: Prog, consts: Seq<Seq<u8>>, vm: Vm, t1: u8, t2: u8, a: u8, b: u8, c: u8, imm: u8, w: u8)
    requires
        p.meaning(consts, vm).wf(),
        p.consts == Seq::<Seq<u8>>::empty(),
        t1 != t2,
        t1 != a && t1 != b && t1 != c,
        t2 != a && t2 != b && t2 != c,
        w <= 1,
        consts == p.bool2(t1, b, c, imm >> 4, w).bool2(t2, b, c, imm & 0xf, w).consts,
    ensures
        ({
            let before = p.meaning(consts, vm);
            let q = tern(p, t1, t2, a, b, c, imm, w);
            let after = q.meaning(consts, vm);
            &&& q.consts == consts
            &&& q.temps == p.temps
            &&& q.kscr == p.kscr
            &&& after.wf()
            &&& after.k == before.k
            &&& after.mem == before.mem
            &&& forall|r: u8| r != t1 && r != t2 ==> #[trigger] after.z[r] == before.z[r]
            &&& after.z[t1] == Seq::new(
                16,
                |i: int| three_bits(imm, before.z[a][i], before.z[b][i], before.z[c][i]),
            )
        }),
{
    meaning::lemma_shortcuts(imm, 0, 0, 0);
    let before = p.meaning(consts, vm);
    let new = Seq::new(
        16,
        |i: int| three_bits(imm, before.z[a][i], before.z[b][i], before.z[c][i]),
    );
    let hi = imm >> 4;
    let lo = imm & 0xf;
    let q1 = p.bool2(t1, b, c, hi, w);
    let q2 = q1.bool2(t2, b, c, lo, w);
    lemma_bool2_takes(p, t1, b, c, hi, w);
    lemma_bool2_takes(q1, t2, b, c, lo, w);
    assert(prog::find_from(seq![arith::ones()], arith::ones(), 0) == Some(0int));
    assert(seq![].push(arith::ones()) =~= seq![arith::ones()]);
    lemma_bool2(p, consts, vm, t1, b, c, hi, w);
    lemma_bool2(q1, consts, vm, t2, b, c, lo, w);
    meaning::lemma_i0f(q2, consts, vm, 0xDB, t1, a, Rm::Reg(t1), w);
    let q3 = q2.i0f(0xDB, t1, a, Rm::Reg(t1), 0, w);
    meaning::lemma_i0f(q3, consts, vm, 0xDF, t2, a, Rm::Reg(t2), w);
    let q4 = q3.i0f(0xDF, t2, a, Rm::Reg(t2), 0, w);
    meaning::lemma_i0f(q4, consts, vm, 0xEB, t1, t1, Rm::Reg(t2), w);
    let q5 = q4.i0f(0xEB, t1, t1, Rm::Reg(t2), 0, w);
    assert(q5.meaning(consts, vm).z[t1] =~= new);
}

/// The general case of a ternary function.
spec fn tern(p: Prog, t1: u8, t2: u8, a: u8, b: u8, c: u8, imm: u8, w: u8) -> Prog {
    p
        .bool2(t1, b, c, imm >> 4, w)
        .bool2(t2, b, c, imm & 0xf, w)
        .i0f(0xDB, t1, a, Rm::Reg(t1), 0, w)
        .i0f(0xDF, t2, a, Rm::Reg(t2), 0, w)
        .i0f(0xEB, t1, t1, Rm::Reg(t2), 0, w)
}

/// vpternlogd and vpternlogq compute the function of three bits that their
/// truth table is, and write it as AVX-512 does.
pub proof fn law_ternlog(insn: Decoded, ev: Ev, scratch: i32, vm: Vm)
    requires
        meaning::between(insn, ev),
        meaning::named(insn, ev.reg),
        meaning::named(insn, ev.vvvv),
        meaning::named(insn, ev.rm),
        vm.wf(),
    ensures
        ({
            let p = arith::ternlog_outcome(insn, ev, scratch)->Thunk_0;
            let after = p.meaning(p.consts, vm);
            &&& arith::ternlog_outcome(insn, ev, scratch) is Thunk
            &&& meaning::apart(vm, after, p.temps, ev.reg, p.kscr)
            &&& after.z[ev.reg] == meaning::written(
                ev,
                vm.z[ev.reg],
                Seq::new(
                    16,
                    |i: int|
                        three_bits(
                            insn.head.imm8,
                            vm.z[ev.reg][i],
                            vm.z[ev.vvvv][i],
                            vm.z[ev.rm][i],
                        ),
                ),
                vm.k[ev.aaa],
            )
        }),
{
    let a = ev.reg;
    let b = ev.vvvv;
    let c = ev.rm;
    let imm = insn.head.imm8;
    let w = ev.w;
    let p0 = Prog::start(scratch, insn);
    let narrow = ev.aaa != 0 || ev.ll != 2;
    let fin = arith::ternlog_outcome(insn, ev, scratch)->Thunk_0;
    let consts = fin.consts;
    let new = Seq::new(16, |i: int| three_bits(imm, vm.z[a][i], vm.z[b][i], vm.z[c][i]));
    let ones = Seq::new(16, |i: int| 0xffff_ffffu32);
    let t1 = p0.next_temp();
    let t2 = p0.temp().next_temp();
    meaning::lemma_start(scratch, insn, ev);
    meaning::lemma_words(ones);
    meaning::lemma_temp(p0, consts, vm);
    meaning::lemma_temp(p0.temp(), consts, vm);
    assert(p0.meaning(consts, vm) == vm);
    assert forall|i: int| 0 <= i < 16 implies {
        &&& imm == 0xff ==> #[trigger] new[i] == 0xffff_ffff
        &&& imm == 0 ==> new[i] == 0
        &&& imm == 0x96 ==> new[i] == vm.z[a][i] ^ vm.z[b][i] ^ vm.z[c][i]
    } by {
        meaning::lemma_shortcuts(imm, vm.z[a][i], vm.z[b][i], vm.z[c][i]);
    }
    if imm == 0xff {
        let p1 = p0.constant(arith::ones());
        let r = p1.result_reg(narrow, a);
        let p2 = p1.result_temp(narrow);
        let p3 = p2.vmov(r, Rm::Const(0), 0, 0);
        meaning::lemma_commit_takes(p3, a, r, ev);
        assert(consts =~= seq![arith::ones()]);
        meaning::lemma_temp(p1, consts, vm);
        meaning::lemma_vmov(p2, consts, vm, r, Rm::Const(0), 0);
        assert(p3.meaning(consts, vm).z[r] =~= new);
        meaning::law_commit(p3, consts, vm, a, r, ev);
    } else if imm == 0 {
        let r = p0.result_reg(narrow, a);
        let p2 = p0.result_temp(narrow);
        meaning::lemma_zero(p2, consts, vm, r, 0, w);
        let p3 = p2.zero(r, 0, w);
        assert(p3.meaning(consts, vm).z[r] =~= new);
        meaning::lemma_commit_takes(p3, a, r, ev);
        meaning::law_commit(p3, consts, vm, a, r, ev);
    } else {
        let p = p0.temp().temp();
        if imm == 0x96 {
            meaning::lemma_i0f(p, consts, vm, 0xEF, t1, a, Rm::Reg(b), w);
            let q = p.i0f(0xEF, t1, a, Rm::Reg(b), 0, w);
            meaning::lemma_i0f(q, consts, vm, 0xEF, t1, t1, Rm::Reg(c), w);
            let q2 = q.i0f(0xEF, t1, t1, Rm::Reg(c), 0, w);
            assert(q2.meaning(consts, vm).z[t1] =~= new);
            meaning::lemma_commit_takes(q2, a, t1, ev);
            meaning::law_commit(q2, consts, vm, a, t1, ev);
        } else {
            meaning::lemma_commit_takes(tern(p, t1, t2, a, b, c, imm, w), a, t1, ev);
            lemma_tern(p, consts, vm, t1, t2, a, b, c, imm, w);
            let q = tern(p, t1, t2, a, b, c, imm, w);
            assert(q.meaning(consts, vm).z[t1] =~= new);
            meaning::law_commit(q, consts, vm, a, t1, ev);
        }
    }
    assert(fin.temps.contains(t1) || fin.temps == Seq::<u8>::empty());
}

/// The low dword of a qword.
pub open spec fn low(x: u64) -> u32 {
    (x % 0x1_0000_0000) as u32
}

/// The high dword of a qword.
pub open spec fn high(x: u64) -> u32 {
    (x / 0x1_0000_0000) as u32
}

/// A qword of its two dwords.
pub open spec fn joined(lo: u32, hi: u32) -> u64 {
    (lo as u64) | ((hi as u64) << 32)
}

/// Dword `i` of the vector whose qwords `f` makes of those of `v`.
pub open spec fn by_qwords(v: Seq<u32>, f: spec_fn(u64) -> u64) -> Seq<u32> {
    Seq::new(
        16,
        |i: int|
            if i % 2 == 0 {
                low(f(joined(v[i], v[i + 1])))
            } else {
                high(f(joined(v[i - 1], v[i])))
            },
    )
}

/// A qword shifted right by `n`, zeros coming in.
pub open spec fn srl64(x: u64, n: u8) -> u64 {
    if n < 64 {
        x >> (n as u64)
    } else {
        0
    }
}

/// A qword shifted right by `n`, its sign coming in.
pub open spec fn sra64(x: u64, n: u8) -> u64 {
    let m: u64 = if n < 64 {
        n as u64
    } else {
        63
    };
    if x < 0x8000_0000_0000_0000 {
        x >> m
    } else {
        !((!x) >> m)
    }
}

/// A qword shifted left by `n`.
pub open spec fn sll64(x: u64, n: u8) -> u64 {
    if n < 64 {
        x << (n as u64)
    } else {
        0
    }
}

/// The two dwords of a qword shifted by less than 32.
proof fn lemma_short_shifts(lo: u32, hi: u32, n: u32)
    requires
        1 <= n < 32,
    ensures
        ({
            let x = joined(lo, hi);
            &&& low(x >> (n as u64)) == (lo >> n) | (hi << ((32 - n) as u32))
            &&& high(x >> (n as u64)) == hi >> n
            &&& low(x << (n as u64)) == lo << n
            &&& high(x << (n as u64)) == (hi << n) | (lo >> ((32 - n) as u32))
            &&& low(sra64(x, n as u8)) == (lo >> n) | (hi << ((32 - n) as u32))
            &&& high(sra64(x, n as u8)) == meaning::sra(hi, n)
        }),
{
    let m = (32 - n) as u32;
    let x = joined(lo, hi);
    assert(((x >> (n as u64)) % 0x1_0000_0000) as u32 == (lo >> n) | (hi << m) && ((x >> (n as u64))
        / 0x1_0000_0000) as u32 == hi >> n && ((x << (n as u64)) % 0x1_0000_0000) as u32 == lo << n
        && ((x << (n as u64)) / 0x1_0000_0000) as u32 == (hi << n) | (lo >> m)) by (bit_vector)
        requires
            1 <= n < 32,
            m == 32 - n,
            x == (lo as u64) | ((hi as u64) << 32),
    ;
    assert(((!((!x) >> (n as u64))) % 0x1_0000_0000) as u32 == (lo >> n) | (hi << m) && ((!((!x) >> (n
        as u64))) / 0x1_0000_0000) as u32 == !((!hi) >> n) && (x < 0x8000_0000_0000_0000 <==> hi
        < 0x8000_0000)) by (bit_vector)
        requires
            1 <= n < 32,
            m == 32 - n,
            x == (lo as u64) | ((hi as u64) << 32),
    ;
}

/// The two dwords of a qword shifted by 32 or more.
proof fn lemma_long_shifts(lo: u32, hi: u32, n: u32)
    requires
        n < 32,
    ensures
        ({
            let x = joined(lo, hi);
            let m = (n + 32) as u64;
            &&& low(x >> m) == hi >> n
            &&& high(x >> m) == 0
            &&& low(x << m) == 0
            &&& high(x << m) == lo << n
            &&& low(sra64(x, (n + 32) as u8)) == meaning::sra(hi, n)
            &&& high(sra64(x, (n + 32) as u8)) == meaning::sra(hi, 31)
            &&& low(x) == lo
            &&& high(x) == hi
            &&& low(0) == 0
            &&& high(0) == 0
        }),
        forall|c: u8|
            c >= 64 ==> low(#[trigger] sra64(joined(lo, hi), c)) == meaning::sra(hi, 31) && high(
                sra64(joined(lo, hi), c),
            ) == meaning::sra(hi, 31),
        forall|c: u8| c == 0 ==> #[trigger] sra64(joined(lo, hi), c) == joined(lo, hi),
        joined(lo, hi) >> 0u64 == joined(lo, hi),
        joined(lo, hi) << 0u64 == joined(lo, hi),
{
    let x = joined(lo, hi);
    let m = (n + 32) as u64;
    assert(((x >> m) % 0x1_0000_0000) as u32 == hi >> n && ((x >> m) / 0x1_0000_0000) as u32 == 0
        && ((x << m) % 0x1_0000_0000) as u32 == 0 && ((x << m) / 0x1_0000_0000) as u32 == lo << n
        && ((!((!x) >> m)) % 0x1_0000_0000) as u32 == !((!hi) >> n) && ((!((!x) >> m))
        / 0x1_0000_0000) as u32 == 0xffff_ffff && (x < 0x8000_0000_0000_0000 <==> hi < 0x8000_0000)
        && (x % 0x1_0000_0000) as u32 == lo && (x / 0x1_0000_0000) as u32 == hi && (hi < 0x8000_0000
        ==> hi >> 31u32 == 0) && (hi >= 0x8000_0000 ==> !((!hi) >> 31u32) == 0xffff_ffff) && (hi
        < 0x8000_0000 ==> x >> 63u64 == 0) && (hi >= 0x8000_0000 ==> !((!x) >> 63u64)
        == 0xffff_ffff_ffff_ffff) && x >> 0u64 == x && x << 0u64 == x && !((!x) >> 0u64) == x)
        by (bit_vector)
        requires
            n < 32,
            m == n + 32,
            x == (lo as u64) | ((hi as u64) << 32),
    ;
}

/// The shift of a qword that a mnemonic names.
pub open spec fn shift64(x: u64, n: u8, right: bool, arith: bool) -> u64 {
    if right && arith {
        sra64(x, n)
    } else if right {
        srl64(x, n)
    } else {
        sll64(x, n)
    }
}

/// What the right shift makes of every qword.
proof fn lemma_shift_right(
    p: Prog,
    consts: Seq<Seq<u8>>,
    vm: Vm,
    r: u8,
    s: u8,
    t: u8,
    n: u8,
    arith: bool,
)
    requires
        p.meaning(consts, vm).wf(),
        r != s,
        r != t,
        t != s,
        p.kscr != 0,
    ensures
        ({
            let before = p.meaning(consts, vm);
            let q = p.shift_right_q(r, s, t, n, arith);
            let after = q.meaning(consts, vm);
            &&& meaning::apart(before, after, seq![t], r, p.kscr)
            &&& after.z[r] == by_qwords(before.z[s], |x: u64| shift64(x, n, true, arith))
            &&& q.consts == p.consts && q.temps == p.temps && q.kscr == p.kscr
        }),
{
    let before = p.meaning(consts, vm);
    let k = p.kscr;
    let new = by_qwords(before.z[s], |x: u64| shift64(x, n, true, arith));
    let after = p.shift_right_q(r, s, t, n, arith).meaning(consts, vm);
    assert(seq![t].contains(t)) by {
        assert(seq![t][0] == t);
    }
    if n >= 64 {
        if arith {
            meaning::lemma_vpshufd(p, consts, vm, r, s, 0xf5, 0);
            meaning::lemma_shift_imm(p.vpshufd(r, Rm::Reg(s), 0xf5, 0), consts, vm, 4, r, r, 31, 0);
        } else {
            meaning::lemma_zero(p, consts, vm, r, 0, 0);
        }
    } else if n >= 32 {
        meaning::lemma_vpshufd(p, consts, vm, r, s, 0xf5, 0);
        let q1 = p.vpshufd(r, Rm::Reg(s), 0xf5, 0);
        meaning::lemma_mask_imm(q1, consts, vm, arith::EVEN);
        let q2 = q1.mask_imm(arith::EVEN);
        let which: u8 = if arith { 4 } else { 2 };
        meaning::lemma_shift_imm(q2, consts, vm, which, r, r, (n - 32) as u8, k);
        let q3 = q2.shift_imm(which, r, Rm::Reg(r), (n - 32) as u8, k);
        meaning::lemma_mask_imm(q3, consts, vm, arith::ODD);
        let q4 = q3.mask_imm(arith::ODD);
        if arith {
            meaning::lemma_shift_imm(q4, consts, vm, 4, r, r, 31, k);
        } else {
            meaning::lemma_zero(q4, consts, vm, r, k, 0);
        }
    } else if n == 0 {
        meaning::lemma_vmov(p, consts, vm, r, Rm::Reg(s), 0);
    } else {
        meaning::lemma_shift_imm(p, consts, vm, 2, r, s, n, 0);
        let q1 = p.shift_imm(2, r, Rm::Reg(s), n, 0);
        meaning::lemma_mask_imm(q1, consts, vm, arith::ODD);
        let q2 = q1.mask_imm(arith::ODD);
        meaning::lemma_shift_imm(q2, consts, vm, 4, r, s, n, k);
        let q3 = if arith {
            q2.shift_imm(4, r, Rm::Reg(s), n, k)
        } else {
            q1
        };
        meaning::lemma_vpshufd(q3, consts, vm, t, s, 0xf5, 0);
        let q4 = q3.vpshufd(t, Rm::Reg(s), 0xf5, 0);
        meaning::lemma_shift_imm(q4, consts, vm, 6, t, t, (32 - n) as u8, 0);
        let q5 = q4.shift_imm(6, t, Rm::Reg(t), (32 - n) as u8, 0);
        meaning::lemma_mask_imm(q5, consts, vm, arith::EVEN);
        meaning::lemma_masked(q5.mask_imm(arith::EVEN), consts, vm, 0xEB, r, r, t, k);
    }
    assert forall|i: int| 0 <= i < 16 implies #[trigger] after.z[r][i] == new[i] by {
        meaning::lemma_lanes(i as u16);
        meaning::lemma_fields((i % 4) as u8, 0);
        let lo = before.z[s][i - i % 2];
        let hi = before.z[s][i - i % 2 + 1];
        if 0 < n < 32 {
            lemma_short_shifts(lo, hi, n as u32);
        }
        lemma_long_shifts(lo, hi, if 32 <= n < 64 { (n - 32) as u32 } else { 0 });
    }
    assert(after.z[r] =~= new);
}

/// What the left shift makes of every qword.
proof fn lemma_shift_left(p: Prog, consts: Seq<Seq<u8>>, vm: Vm, r: u8, s: u8, t: u8, n: u8)
    requires
        p.meaning(consts, vm).wf(),
        r != s,
        r != t,
        t != s,
        p.kscr != 0,
    ensures
        ({
            let before = p.meaning(consts, vm);
            let q = p.shift_left_q(r, s, t, n);
            let after = q.meaning(consts, vm);
            &&& meaning::apart(before, after, seq![t], r, p.kscr)
            &&& after.z[r] == by_qwords(before.z[s], |x: u64| shift64(x, n, false, false))
            &&& q.consts == p.consts && q.temps == p.temps && q.kscr == p.kscr
        }),
{
    let before = p.meaning(consts, vm);
    let k = p.kscr;
    let new = by_qwords(before.z[s], |x: u64| shift64(x, n, false, false));
    let after = p.shift_left_q(r, s, t, n).meaning(consts, vm);
    assert(seq![t].contains(t)) by {
        assert(seq![t][0] == t);
    }
    if n >= 64 {
        meaning::lemma_zero(p, consts, vm, r, 0, 0);
    } else if n >= 32 {
        meaning::lemma_vpshufd(p, consts, vm, r, s, 0xa0, 0);
        let q1 = p.vpshufd(r, Rm::Reg(s), 0xa0, 0);
        meaning::lemma_mask_imm(q1, consts, vm, arith::ODD);
        let q2 = q1.mask_imm(arith::ODD);
        meaning::lemma_shift_imm(q2, consts, vm, 6, r, r, (n - 32) as u8, k);
        let q3 = q2.shift_imm(6, r, Rm::Reg(r), (n - 32) as u8, k);
        meaning::lemma_mask_imm(q3, consts, vm, arith::EVEN);
        meaning::lemma_zero(q3.mask_imm(arith::EVEN), consts, vm, r, k, 0);
    } else if n == 0 {
        meaning::lemma_vmov(p, consts, vm, r, Rm::Reg(s), 0);
    } else {
        meaning::lemma_shift_imm(p, consts, vm, 6, r, s, n, 0);
        let q1 = p.shift_imm(6, r, Rm::Reg(s), n, 0);
        meaning::lemma_vpshufd(q1, consts, vm, t, s, 0xa0, 0);
        let q2 = q1.vpshufd(t, Rm::Reg(s), 0xa0, 0);
        meaning::lemma_shift_imm(q2, consts, vm, 2, t, t, (32 - n) as u8, 0);
        let q3 = q2.shift_imm(2, t, Rm::Reg(t), (32 - n) as u8, 0);
        meaning::lemma_mask_imm(q3, consts, vm, arith::ODD);
        meaning::lemma_masked(q3.mask_imm(arith::ODD), consts, vm, 0xEB, r, r, t, k);
    }
    assert forall|i: int| 0 <= i < 16 implies #[trigger] after.z[r][i] == new[i] by {
        meaning::lemma_lanes(i as u16);
        meaning::lemma_fields((i % 4) as u8, 0);
        let lo = before.z[s][i - i % 2];
        let hi = before.z[s][i - i % 2 + 1];
        if 0 < n < 32 {
            lemma_short_shifts(lo, hi, n as u32);
        }
        lemma_long_shifts(lo, hi, if 32 <= n < 64 { (n - 32) as u32 } else { 0 });
    }
    assert(after.z[r] =~= new);
}

/// vpsrlq, vpsraq and vpsllq by an immediate shift every qword, and write
/// the result as AVX-512 does.
pub proof fn law_shift_q(insn: Decoded, ev: Ev, scratch: i32, vm: Vm)
    requires
        meaning::between(insn, ev),
        meaning::named(insn, ev.vvvv),
        meaning::named(insn, ev.rm),
        vm.wf(),
    ensures
        ({
            let m = insn.head.mnemonic;
            let p = arith::shift_q_outcome(insn, ev, scratch)->Thunk_0;
            let after = p.meaning(p.consts, vm);
            &&& arith::shift_q_outcome(insn, ev, scratch) is Thunk
            &&& meaning::apart(vm, after, p.temps, ev.vvvv, p.kscr)
            &&& after.z[ev.vvvv] == meaning::written(
                Ev { w: 1, ..ev },
                vm.z[ev.vvvv],
                by_qwords(
                    vm.z[ev.rm],
                    |x: u64|
                        shift64(
                            x,
                            insn.head.imm8,
                            m == mn::VPSRLQ || m == mn::VPSRAQ,
                            m == mn::VPSRAQ,
                        ),
                ),
                vm.k[ev.aaa],
            )
        }),
{
    let m = insn.head.mnemonic;
    let n = insn.head.imm8;
    let p0 = Prog::start(scratch, insn);
    let r = p0.next_temp();
    let t = p0.temp().next_temp();
    let p = p0.temp().temp();
    let fin = arith::shift_q_outcome(insn, ev, scratch)->Thunk_0;
    let consts = fin.consts;
    let right = m == mn::VPSRLQ || m == mn::VPSRAQ;
    let ev1 = Ev { w: 1, ..ev };
    meaning::lemma_start(scratch, insn, ev);
    meaning::lemma_temp(p0, consts, vm);
    meaning::lemma_temp(p0.temp(), consts, vm);
    assert(p0.meaning(consts, vm) == vm);
    let q = if right {
        p.shift_right_q(r, ev.rm, t, n, m == mn::VPSRAQ)
    } else {
        p.shift_left_q(r, ev.rm, t, n)
    };
    if right {
        lemma_shift_right(p, consts, vm, r, ev.rm, t, n, m == mn::VPSRAQ);
        assert(by_qwords(vm.z[ev.rm], |x: u64| shift64(x, n, true, m == mn::VPSRAQ)) =~= by_qwords(
            vm.z[ev.rm],
            |x: u64| shift64(x, n, right, m == mn::VPSRAQ),
        ));
    } else {
        lemma_shift_left(p, consts, vm, r, ev.rm, t, n);
        assert(by_qwords(vm.z[ev.rm], |x: u64| shift64(x, n, false, false)) =~= by_qwords(
            vm.z[ev.rm],
            |x: u64| shift64(x, n, right, m == mn::VPSRAQ),
        ));
    }
    meaning::lemma_commit_takes(q, ev.vvvv, r, ev1);
    meaning::law_commit(q, consts, vm, ev.vvvv, r, ev1);
    assert(fin.temps[0] == r && fin.temps[1] == t);
}

/// The magnitude of a signed dword; of the least one, itself.
pub open spec fn magnitude(x: u32) -> u32 {
    if x < 0x8000_0000 {
        x
    } else {
        (0x1_0000_0000 - x) as u32
    }
}

proof fn lemma_magnitude(x: u32)
    ensures
        ({
            let t = meaning::sra(x, 31);
            meaning::lane_op(0xFA, x ^ t, t)->0 == magnitude(x)
        }),
{
    assert((x < 0x8000_0000 ==> x >> 31u32 == 0) && (x >= 0x8000_0000 ==> !((!x) >> 31u32)
        == 0xffff_ffff) && x ^ 0 == x && x ^ 0xffff_ffff == 0xffff_ffff - x) by (bit_vector);
}

/// vpabsd takes the magnitude of every signed dword, and writes it as
/// AVX-512 does.
pub proof fn law_abs_d(insn: Decoded, ev: Ev, scratch: i32, vm: Vm)
    requires
        meaning::between(insn, ev),
        meaning::named(insn, ev.reg),
        meaning::named(insn, ev.rm),
        vm.wf(),
    ensures
        ({
            let p = arith::abs_d_outcome(insn, ev, scratch)->Thunk_0;
            let after = p.meaning(p.consts, vm);
            &&& arith::abs_d_outcome(insn, ev, scratch) is Thunk
            &&& meaning::apart(vm, after, p.temps, ev.reg, p.kscr)
            &&& after.z[ev.reg] == meaning::written(
                ev,
                vm.z[ev.reg],
                vm.z[ev.rm].map_values(|x: u32| magnitude(x)),
                vm.k[ev.aaa],
            )
        }),
{
    let p0 = Prog::start(scratch, insn);
    let r = p0.next_temp();
    let t = p0.temp().next_temp();
    let p = p0.temp().temp();
    let fin = arith::abs_d_outcome(insn, ev, scratch)->Thunk_0;
    let consts = fin.consts;
    meaning::lemma_start(scratch, insn, ev);
    meaning::lemma_temp(p0, consts, vm);
    meaning::lemma_temp(p0.temp(), consts, vm);
    assert(p0.meaning(consts, vm) == vm);
    let s = ev.rm;
    meaning::lemma_shift_imm(p, consts, vm, 4, t, s, 31, 0);
    let q1 = p.shift_imm(4, t, Rm::Reg(s), 31, 0);
    meaning::lemma_i0f(q1, consts, vm, 0xEF, r, s, Rm::Reg(t), 0);
    let q2 = q1.i0f(0xEF, r, s, Rm::Reg(t), 0, 0);
    meaning::lemma_i0f(q2, consts, vm, 0xFA, r, r, Rm::Reg(t), 0);
    let q3 = q2.i0f(0xFA, r, r, Rm::Reg(t), 0, 0);
    let new = vm.z[s].map_values(|x: u32| magnitude(x));
    assert forall|i: int| 0 <= i < 16 implies #[trigger] q3.meaning(consts, vm).z[r][i] == new[i] by {
        lemma_magnitude(vm.z[s][i]);
    }
    assert(q3.meaning(consts, vm).z[r] =~= new);
    meaning::lemma_commit_takes(q3, ev.reg, r, ev);
    meaning::law_commit(q3, consts, vm, ev.reg, r, ev);
    assert(fin.temps[0] == r && fin.temps[1] == t);
}

/// The unsigned 64-bit products of the even dwords.
pub open spec fn products(a: Seq<u32>, b: Seq<u32>) -> Seq<u32> {
    Seq::new(
        16,
        |i: int|
            if i % 2 == 0 {
                ((a[i] * b[i]) % 0x1_0000_0000) as u32
            } else {
                ((a[i - 1] * b[i - 1]) / 0x1_0000_0000) as u32
            },
    )
}

/// vpmuludq multiplies the even dwords into qwords, and writes them as
/// AVX-512 does.
pub proof fn law_muludq(insn: Decoded, ev: Ev, scratch: i32, vm: Vm)
    requires
        meaning::between(insn, ev),
        meaning::named(insn, ev.reg),
        meaning::named(insn, ev.vvvv),
        meaning::named(insn, ev.rm),
        vm.wf(),
    ensures
        ({
            let p = arith::muludq_outcome(insn, ev, scratch)->Thunk_0;
            let after = p.meaning(p.consts, vm);
            &&& arith::muludq_outcome(insn, ev, scratch) is Thunk
            &&& meaning::apart(vm, after, p.temps, ev.reg, p.kscr)
            &&& after.z[ev.reg] == meaning::written(
                Ev { w: 1, ..ev },
                vm.z[ev.reg],
                products(vm.z[ev.vvvv], vm.z[ev.rm]),
                vm.k[ev.aaa],
            )
        }),
{
    let p0 = Prog::start(scratch, insn);
    let r = p0.next_temp();
    let t = p0.temp().next_temp();
    let p = p0.temp().temp();
    let fin = arith::muludq_outcome(insn, ev, scratch)->Thunk_0;
    let consts = fin.consts;
    let ev1 = Ev { w: 1, ..ev };
    meaning::lemma_start(scratch, insn, ev);
    meaning::lemma_temp(p0, consts, vm);
    meaning::lemma_temp(p0.temp(), consts, vm);
    assert(p0.meaning(consts, vm) == vm);
    let (a, b) = (ev.vvvv, ev.rm);
    meaning::lemma_i38(p, consts, vm, 0x40, r, a, b);
    let q1 = p.i38(0x40, r, a, Rm::Reg(b), 0);
    meaning::lemma_i38(q1, consts, vm, 0x86, t, a, b);
    let q2 = q1.i38(0x86, t, a, Rm::Reg(b), 0);
    meaning::lemma_vpshufd(q2, consts, vm, t, t, 0xa0, 0);
    let q3 = q2.vpshufd(t, Rm::Reg(t), 0xa0, 0);
    meaning::lemma_mask_imm(q3, consts, vm, arith::ODD);
    let q4 = q3.mask_imm(arith::ODD);
    meaning::lemma_masked(q4, consts, vm, 0xEF, r, r, t, p.kscr);
    let q5 = q4.vmov(r, Rm::Reg(t), p.kscr, 0);
    let new = products(vm.z[a], vm.z[b]);
    let v = q5.meaning(consts, vm).z[r];
    assert forall|i: int| 0 <= i < 16 implies #[trigger] v[i] == new[i] by {
        meaning::lemma_lanes(i as u16);
        meaning::lemma_fields((i % 4) as u8, 0);
        assert(4 * (i / 4) + i % 4 == i);
    }
    assert(v =~= new);
    meaning::lemma_commit_takes(q5, ev.reg, r, ev1);
    meaning::law_commit(q5, consts, vm, ev.reg, r, ev1);
    assert(fin.temps[0] == r && fin.temps[1] == t);
}

/// What an interleave or a shuffle within 128-bit blocks makes of its two
/// sources: lane `j` of the block that begins at `at`.
pub open spec fn interleaved(m: u16, imm: u8, a: Seq<u32>, b: Seq<u32>, at: int, j: int) -> u32 {
    if m == mn::VMOVHLPS {
        if j < 2 {
            b[at + 2 + j]
        } else {
            a[at + j]
        }
    } else if m == mn::VUNPCKLPS || m == mn::VPUNPCKLDQ {
        if j % 2 == 0 {
            a[at + j / 2]
        } else {
            b[at + j / 2]
        }
    } else if m == mn::VUNPCKHPS || m == mn::VPUNPCKHDQ {
        if j % 2 == 0 {
            a[at + 2 + j / 2]
        } else {
            b[at + 2 + j / 2]
        }
    } else if m == mn::VMOVLHPS || m == mn::VUNPCKLPD || m == mn::VPUNPCKLQDQ {
        if j < 2 {
            a[at + j]
        } else {
            b[at + j - 2]
        }
    } else if m == mn::VUNPCKHPD || m == mn::VPUNPCKHQDQ {
        if j < 2 {
            a[at + 2 + j]
        } else {
            b[at + j]
        }
    } else if m == mn::VSHUFPS {
        if j < 2 {
            a[at + meaning::field(imm, j)]
        } else {
            b[at + meaning::field(imm, j)]
        }
    } else {
        let pick = (imm >> ((at / 2 + j / 2) as u8)) & 1 == 1;
        if j < 2 {
            a[at + (if pick { 2int } else { 0 }) + j]
        } else {
            b[at + (if pick { 0int } else { -2 }) + j]
        }
    }
}

/// Two shuffles merged under a mask of lanes.
proof fn lemma_interleave(
    p: Prog,
    consts: Seq<Seq<u8>>,
    vm: Vm,
    r: u8,
    t: u8,
    a: u8,
    b: u8,
    sh: (u8, u8, u16),
)
    requires
        p.meaning(consts, vm).wf(),
        r != a && r != b && t != a && t != b && r != t,
        p.kscr != 0,
    ensures
        ({
            let before = p.meaning(consts, vm);
            let q = p
                .vpshufd(r, Rm::Reg(a), sh.0, 0)
                .vpshufd(t, Rm::Reg(b), sh.1, 0)
                .mask_imm(sh.2)
                .vmov(r, Rm::Reg(t), p.kscr, 0);
            let after = q.meaning(consts, vm);
            &&& meaning::apart(before, after, seq![t], r, p.kscr)
            &&& forall|i: int|
                0 <= i < 16 ==> #[trigger] after.z[r][i] == (if meaning::bit(sh.2, i) {
                    before.z[b][4 * (i / 4) + meaning::field(sh.1, i % 4)]
                } else {
                    before.z[a][4 * (i / 4) + meaning::field(sh.0, i % 4)]
                })
            &&& q.consts == p.consts && q.temps == p.temps && q.kscr == p.kscr
        }),
{
    assert(seq![t].contains(t)) by {
        assert(seq![t][0] == t);
    }
    meaning::lemma_vpshufd(p, consts, vm, r, a, sh.0, 0);
    let q1 = p.vpshufd(r, Rm::Reg(a), sh.0, 0);
    meaning::lemma_vpshufd(q1, consts, vm, t, b, sh.1, 0);
    let q2 = q1.vpshufd(t, Rm::Reg(b), sh.1, 0);
    meaning::lemma_mask_imm(q2, consts, vm, sh.2);
    meaning::lemma_masked(q2.mask_imm(sh.2), consts, vm, 0xEF, r, r, t, p.kscr);
}

/// The interleaves and the shuffles within blocks take the lanes AVX-512
/// takes, and write them as it does.
pub proof fn law_interleave(insn: Decoded, ev: Ev, scratch: i32, vm: Vm)
    requires
        meaning::between(insn, ev),
        meaning::named(insn, ev.reg),
        meaning::named(insn, ev.vvvv),
        meaning::named(insn, ev.rm),
        vm.wf(),
        rewrite::is_interleave(insn.head.mnemonic),
        shuffle::interleave_outcome(insn, ev, scratch) is Thunk,
    ensures
        ({
            let p = shuffle::interleave_outcome(insn, ev, scratch)->Thunk_0;
            let after = p.meaning(p.consts, vm);
            &&& meaning::apart(vm, after, p.temps, ev.reg, p.kscr)
            &&& after.z[ev.reg] == meaning::written(
                ev,
                vm.z[ev.reg],
                Seq::new(
                    16,
                    |i: int|
                        interleaved(
                            insn.head.mnemonic,
                            insn.head.imm8,
                            vm.z[ev.vvvv],
                            vm.z[ev.rm],
                            i - i % 4,
                            i % 4,
                        ),
                ),
                vm.k[ev.aaa],
            )
        }),
{
    let m = insn.head.mnemonic;
    let imm = insn.head.imm8;
    let sh = shuffle::interleaving(m, imm);
    let p0 = Prog::start(scratch, insn);
    let r = p0.next_temp();
    let t = p0.temp().next_temp();
    let p = p0.temp().temp();
    let fin = shuffle::interleave_outcome(insn, ev, scratch)->Thunk_0;
    let consts = fin.consts;
    let (a, b) = (ev.vvvv, ev.rm);
    meaning::lemma_start(scratch, insn, ev);
    meaning::lemma_temp(p0, consts, vm);
    meaning::lemma_temp(p0.temp(), consts, vm);
    assert(p0.meaning(consts, vm) == vm);
    lemma_interleave(p, consts, vm, r, t, a, b, sh);
    let q = p
        .vpshufd(r, Rm::Reg(a), sh.0, 0)
        .vpshufd(t, Rm::Reg(b), sh.1, 0)
        .mask_imm(sh.2)
        .vmov(r, Rm::Reg(t), p.kscr, 0);
    let new = Seq::new(
        16,
        |i: int| interleaved(m, imm, vm.z[a], vm.z[b], i - i % 4, i % 4),
    );
    let v = q.meaning(consts, vm).z[r];
    assert forall|i: int| 0 <= i < meaning::dwords_of(ev.ll) implies #[trigger] v[i] == new[i] by {
        meaning::lemma_lanes(i as u16);
        meaning::lemma_fields((i % 4) as u8, imm);
        if m == mn::VSHUFPD {
            lemma_shufpd(imm, ev.ll, (i / 4) as u8);
        }
        assert(4 * (i / 4) == i - i % 4);
    }
    meaning::lemma_commit_takes(q, ev.reg, r, ev);
    meaning::law_commit(q, consts, vm, ev.reg, r, ev);
    assert(meaning::written(ev, vm.z[ev.reg], v, vm.k[ev.aaa]) =~= meaning::written(
        ev,
        vm.z[ev.reg],
        new,
        vm.k[ev.aaa],
    ));
    assert(fin.temps[0] == r && fin.temps[1] == t);
}

/// Where every block takes the same two bits of the immediate, they are
/// those of the first.
proof fn lemma_shufpd(imm: u8, ll: u8, blk: u8)
    requires
        ll <= 2,
        blk < 4,
        shuffle::same_per_block(imm, ll),
        4 * blk < meaning::dwords_of(ll),
    ensures
        ((imm >> ((2 * blk) as u8)) & 1 == 1) == (imm & 1 == 1),
        ((imm >> ((2 * blk + 1) as u8)) & 1 == 1) == (imm & 2 == 2),
{
    let s = (2 * blk) as u8;
    let s1 = (2 * blk + 1) as u8;
    let n: u8 = if ll == 0 {
        1
    } else if ll == 1 {
        2
    } else {
        4
    };
    assert(((imm >> s) & 1 == 1 <==> imm & 1 == 1) && ((imm >> s1) & 1 == 1 <==> imm & 2 == 2))
        by (bit_vector)
        requires
            blk < n,
            n == 1 || n == 2 || n == 4,
            n >= 2 ==> (imm >> 2) & 3 == imm & 3,
            n == 4 ==> (imm >> 4) & 3 == imm & 3 && (imm >> 6) & 3 == imm & 3,
            s == 2 * blk,
            s1 == 2 * blk + 1,
    ;
}

/// How many dwords above the bottom the block or half of a vector begins
/// that the immediate of an extract or an insert names.
pub open spec fn place(half: bool, ll: u8, imm: u8) -> int {
    if half {
        8 * (imm as int % 2)
    } else if ll == 2 {
        4 * (imm as int % 4)
    } else {
        4 * (imm as int % 2)
    }
}

/// The immediates of the inserts and extracts, and the lanes of an insert, in
/// numbers.
pub proof fn lemma_place(ll: u8, imm: u8, i: u16)
    requires
        i < 16,
    ensures
        imm & 1 == imm % 2,
        imm & 3 == imm % 4,
        imm & 7 == imm % 8,
        meaning::bit(shuffle::insert_lanes(false, ll, imm), i as int) == (place(false, ll, imm) <= i
            < place(false, ll, imm) + 4),
{
    let b = shuffle::block_of(ll, imm);
    let at = (4 * b) as u8;
    assert(imm & 1 == imm % 2 && imm & 3 == imm % 4 && imm & 7 == imm % 8 && ((b == imm & 3 || b
        == imm & 1) && at == (4 * b) as u8 ==> (((0x000fu16 << at) >> i) & 1 == 1 <==> at <= i && i
        < at + 4))) by (bit_vector)
        requires
            i < 16,
    ;
}

/// The extracts from a vector to a vector bring the block or half that the
/// immediate names to the bottom, and write it as AVX-512 does.
pub proof fn law_extract(insn: Decoded, ev: Ev, scratch: i32, vm: Vm)
    requires
        meaning::between(insn, ev),
        meaning::named(insn, ev.reg),
        meaning::named(insn, ev.rm),
        vm.wf(),
    ensures
        ({
            let half = shuffle::extracts_half(insn.head.mnemonic);
            let p = shuffle::extract_outcome(insn, ev, scratch)->Thunk_0;
            let after = p.meaning(p.consts, vm);
            &&& shuffle::extract_outcome(insn, ev, scratch) is Thunk
            &&& meaning::apart(vm, after, p.temps, ev.rm, p.kscr)
            &&& after.z[ev.rm] == meaning::written(
                Ev { ll: if half { 1 } else { 0 }, ..ev },
                vm.z[ev.rm],
                vm.z[ev.reg].skip(place(half, ev.ll, insn.head.imm8)),
                vm.k[ev.aaa],
            )
        }),
{
    let half = shuffle::extracts_half(insn.head.mnemonic);
    let imm = insn.head.imm8;
    let perm = shuffle::extract_perm(half, ev.ll, imm);
    let ev2 = Ev { ll: if half { 1 } else { 0 }, ..ev };
    let p0 = Prog::start(scratch, insn);
    let fin = shuffle::extract_outcome(insn, ev, scratch)->Thunk_0;
    let consts = fin.consts;
    meaning::lemma_start(scratch, insn, ev);
    meaning::lemma_temp(p0, consts, vm);
    assert(p0.meaning(consts, vm) == vm);
    lemma_place(ev.ll, imm, 0);
    let t = p0.result_reg(ev.aaa != 0, ev.rm);
    let p1 = p0.result_temp(ev.aaa != 0);
    let (q, r) = match perm {
        Some(x) => (p1.vpermf32x4(t, Rm::Reg(ev.reg), x, 0), t),
        None => (p0, ev.reg),
    };
    if perm is Some {
        meaning::lemma_vpermf32x4(p1, consts, vm, t, ev.reg, perm->0, 0);
    }
    let new = vm.z[ev.reg].skip(place(half, ev.ll, imm));
    let v = q.meaning(consts, vm).z[r];
    let old = q.meaning(consts, vm).z[ev.rm];
    assert forall|i: int| 0 <= i < meaning::dwords_of(ev2.ll) implies #[trigger] v[i] == new[i] by {
        meaning::lemma_fields((i / 4) as u8, 0);
    }
    meaning::lemma_commit_takes(q, ev.rm, r, ev2);
    meaning::law_commit(q, consts, vm, ev.rm, r, ev2);
    assert(meaning::written(ev2, old, v, vm.k[ev.aaa]) =~= meaning::written(
        ev2,
        vm.z[ev.rm],
        new,
        vm.k[ev.aaa],
    ));
    if ev.aaa != 0 && perm is Some {
        assert(fin.temps[0] == t);
    }
}

/// The inserts replace the block or half that the immediate names by the
/// bottom of the second source, and write the vector as AVX-512 does.
pub proof fn law_insert(insn: Decoded, ev: Ev, scratch: i32, vm: Vm)
    requires
        meaning::between(insn, ev),
        meaning::named(insn, ev.reg),
        meaning::named(insn, ev.vvvv),
        meaning::named(insn, ev.rm),
        vm.wf(),
    ensures
        ({
            let half = shuffle::inserts_half(insn.head.mnemonic);
            let at = place(half, ev.ll, insn.head.imm8);
            let p = shuffle::insert_outcome(insn, ev, scratch)->Thunk_0;
            let after = p.meaning(p.consts, vm);
            &&& shuffle::insert_outcome(insn, ev, scratch) is Thunk
            &&& meaning::apart(vm, after, p.temps, ev.reg, p.kscr)
            &&& after.z[ev.reg] == meaning::written(
                ev,
                vm.z[ev.reg],
                Seq::new(
                    16,
                    |i: int|
                        if at <= i < at + (if half { 8int } else { 4 }) {
                            vm.z[ev.rm][i - at]
                        } else {
                            vm.z[ev.vvvv][i]
                        },
                ),
                vm.k[ev.aaa],
            )
        }),
{
    let half = shuffle::inserts_half(insn.head.mnemonic);
    let imm = insn.head.imm8;
    let at = place(half, ev.ll, imm);
    let p0 = Prog::start(scratch, insn);
    let fin = shuffle::insert_outcome(insn, ev, scratch)->Thunk_0;
    let consts = fin.consts;
    let (a, b) = (ev.vvvv, ev.rm);
    meaning::lemma_start(scratch, insn, ev);
    meaning::lemma_temp(p0, consts, vm);
    assert(p0.meaning(consts, vm) == vm);
    let narrow = ev.reg == b || ev.aaa != 0;
    let r = p0.result_reg(narrow, ev.reg);
    let p1 = p0.result_temp(narrow);
    meaning::lemma_vmov(p1, consts, vm, r, Rm::Reg(a), 0);
    let p2 = if r != a {
        p1.vmov(r, Rm::Reg(a), 0, 0)
    } else {
        p1
    };
    let lanes = shuffle::insert_lanes(half, ev.ll, imm);
    meaning::lemma_mask_imm(p2, consts, vm, lanes);
    let p3 = p2.mask_imm(lanes);
    let perm: u8 = if half { 0x44 } else { 0x00 };
    meaning::lemma_vpermf32x4(p3, consts, vm, r, b, perm, p0.kscr);
    let q = p3.vpermf32x4(r, Rm::Reg(b), perm, p0.kscr);
    let new = Seq::new(
        16,
        |i: int|
            if at <= i < at + (if half { 8int } else { 4 }) {
                vm.z[b][i - at]
            } else {
                vm.z[a][i]
            },
    );
    let v = q.meaning(consts, vm).z[r];
    let old = q.meaning(consts, vm).z[ev.reg];
    assert forall|i: int| 0 <= i < 16 implies #[trigger] v[i] == new[i] by {
        meaning::lemma_fields((i / 4) as u8, 0);
        meaning::lemma_lanes(i as u16);
        lemma_place(ev.ll, imm, i as u16);
    }
    meaning::lemma_commit_takes(q, ev.reg, r, ev);
    meaning::law_commit(q, consts, vm, ev.reg, r, ev);
    assert(meaning::written(ev, old, v, vm.k[ev.aaa]) =~= meaning::written(
        ev,
        vm.z[ev.reg],
        new,
        vm.k[ev.aaa],
    ));
    if narrow {
        assert(fin.temps[0] == r);
    }
}

/// The broadcasts from a vector register repeat its lowest element, and
/// write it as AVX-512 does.
pub proof fn law_broadcast(insn: Decoded, ev: Ev, scratch: i32, vm: Vm)
    requires
        meaning::between(insn, ev),
        meaning::named(insn, ev.reg),
        meaning::named(insn, ev.rm),
        vm.wf(),
        insn::gpr_of(insn.reg(1)) is None,
    ensures
        ({
            let p = shuffle::broadcast_reg_outcome(insn, ev, scratch)->Thunk_0;
            let after = p.meaning(p.consts, vm);
            &&& shuffle::broadcast_reg_outcome(insn, ev, scratch) is Thunk
            &&& meaning::apart(vm, after, p.temps, ev.reg, p.kscr)
            &&& after.z[ev.reg] == meaning::written(
                ev,
                vm.z[ev.reg],
                Seq::new(16, |i: int| vm.z[ev.rm][if ev.w == 1 { i % 2 } else { 0 }]),
                vm.k[ev.aaa],
            )
        }),
{
    let p0 = Prog::start(scratch, insn);
    let fin = shuffle::broadcast_reg_outcome(insn, ev, scratch)->Thunk_0;
    let consts = fin.consts;
    meaning::lemma_start(scratch, insn, ev);
    meaning::lemma_temp(p0, consts, vm);
    assert(p0.meaning(consts, vm) == vm);
    let r = p0.result_reg(ev.aaa != 0, ev.reg);
    let p1 = p0.result_temp(ev.aaa != 0);
    meaning::lemma_vpermf32x4(p1, consts, vm, r, ev.rm, 0x00, 0);
    let p2 = p1.vpermf32x4(r, Rm::Reg(ev.rm), 0x00, 0);
    let sh: u8 = if ev.w == 1 { 0x44 } else { 0x00 };
    meaning::lemma_vpshufd(p2, consts, vm, r, r, sh, 0);
    let q = p2.vpshufd(r, Rm::Reg(r), sh, 0);
    let new = Seq::new(16, |i: int| vm.z[ev.rm][if ev.w == 1 { i % 2 } else { 0 }]);
    let v = q.meaning(consts, vm).z[r];
    let old = q.meaning(consts, vm).z[ev.reg];
    assert forall|i: int| 0 <= i < 16 implies #[trigger] v[i] == new[i] by {
        meaning::lemma_fields((i / 4) as u8, 0);
        meaning::lemma_fields((i % 4) as u8, 0);
    }
    meaning::lemma_commit_takes(q, ev.reg, r, ev);
    meaning::law_commit(q, consts, vm, ev.reg, r, ev);
    assert(meaning::written(ev, old, v, vm.k[ev.aaa]) =~= meaning::written(
        ev,
        vm.z[ev.reg],
        new,
        vm.k[ev.aaa],
    ));
    if ev.aaa != 0 {
        assert(fin.temps[0] == r);
    }
}

/// The dwords of a block shifted by `n` of them: lane `j` of the block that
/// begins at `at`, for the byte shift or the alignment `m`.
pub open spec fn byte_shifted(m: u16, n: int, a: Seq<u32>, b: Seq<u32>, at: int, j: int) -> u32 {
    if m == mn::VPSRLDQ {
        if j + n < 4 {
            b[at + j + n]
        } else {
            0
        }
    } else if m == mn::VPSLLDQ {
        if j >= n {
            b[at + j - n]
        } else {
            0
        }
    } else if j + n < 4 {
        b[at + j + n]
    } else if j + n < 8 {
        a[at + j + n - 4]
    } else {
        0
    }
}

/// A rotation within blocks with the lanes of a mask then zeroed.
proof fn lemma_rotated(
    p: Prog,
    consts: Seq<Seq<u8>>,
    vm: Vm,
    r: u8,
    s: u8,
    by: u8,
    mask: u16,
)
    requires
        p.meaning(consts, vm).wf(),
        r != s,
        by <= 4,
        p.kscr != 0,
    ensures
        ({
            let before = p.meaning(consts, vm);
            let q = p.vpshufd(r, Rm::Reg(s), shuffle::rotation(by as int), 0).zero_lanes(r, mask);
            let after = q.meaning(consts, vm);
            &&& meaning::apart(before, after, seq![], r, p.kscr)
            &&& forall|i: int|
                0 <= i < 16 ==> #[trigger] after.z[r][i] == (if mask != 0 && meaning::bit(mask, i) {
                    0
                } else {
                    before.z[s][i - i % 4 + (i % 4 + by) % 4]
                })
            &&& q.consts == p.consts && q.temps == p.temps && q.kscr == p.kscr
        }),
{
    let before = p.meaning(consts, vm);
    let rot = shuffle::rotation(by as int);
    meaning::lemma_vpshufd(p, consts, vm, r, s, rot, 0);
    let q1 = p.vpshufd(r, Rm::Reg(s), rot, 0);
    let v = q1.meaning(consts, vm).z[r];
    assert forall|i: int| 0 <= i < 16 implies #[trigger] v[i] == before.z[s][i - i % 4 + (i % 4 + by)
        % 4] by {
        meaning::lemma_fields((i % 4) as u8, 0);
        assert(4 * (i / 4) == i - i % 4);
    }
    if mask != 0 {
        meaning::lemma_mask_imm(q1, consts, vm, mask);
        meaning::lemma_zero(q1.mask_imm(mask), consts, vm, r, p.kscr, 0);
    }
}

/// vpsrldq, vpslldq and vpalignr by whole dwords shift every block as
/// AVX-512 does, and write the result as it does.
pub proof fn law_byte_shift(insn: Decoded, ev: Ev, scratch: i32, vm: Vm)
    requires
        meaning::between(insn, ev),
        meaning::named(insn, if ev::dest_is_vvvv(ev) { ev.vvvv } else { ev.reg }),
        meaning::named(insn, ev.rm),
        ({
            let m = insn.head.mnemonic;
            ||| m == mn::VPSRLDQ
            ||| m == mn::VPSLLDQ
            ||| m == mn::VPALIGNR && meaning::named(insn, ev.vvvv) && !ev::dest_is_vvvv(ev)
        }),
        vm.wf(),
        insn.head.imm8 % 4 == 0,
    ensures
        ({
            let d = if ev::dest_is_vvvv(ev) {
                ev.vvvv
            } else {
                ev.reg
            };
            let p = shuffle::byte_shift_outcome(insn, ev, scratch)->Thunk_0;
            let after = p.meaning(p.consts, vm);
            &&& shuffle::byte_shift_outcome(insn, ev, scratch) is Thunk
            &&& meaning::apart(vm, after, p.temps, d, p.kscr)
            &&& after.z[d] == meaning::written(
                ev,
                vm.z[d],
                Seq::new(
                    16,
                    |i: int|
                        byte_shifted(
                            insn.head.mnemonic,
                            insn.head.imm8 as int / 4,
                            vm.z[ev.vvvv],
                            vm.z[ev.rm],
                            i - i % 4,
                            i % 4,
                        ),
                ),
                vm.k[ev.aaa],
            )
        }),
{
    let m = insn.head.mnemonic;
    let n = insn.head.imm8 as int / 4;
    let d = if ev::dest_is_vvvv(ev) {
        ev.vvvv
    } else {
        ev.reg
    };
    let (a, b) = (ev.vvvv, ev.rm);
    let p0 = Prog::start(scratch, insn);
    let fin = shuffle::byte_shift_outcome(insn, ev, scratch)->Thunk_0;
    let consts = fin.consts;
    meaning::lemma_start(scratch, insn, ev);
    meaning::lemma_temp(p0, consts, vm);
    assert(p0.meaning(consts, vm) == vm);
    let r = p0.next_temp();
    let p = p0.temp();
    let t = p.next_temp();
    let new = Seq::new(
        16,
        |i: int| byte_shifted(m, n, vm.z[a], vm.z[b], i - i % 4, i % 4),
    );
    meaning::lemma_temp(p, consts, vm);
    let q = if (m != mn::VPALIGNR && n >= 4) || n >= 8 {
        meaning::lemma_zero(p, consts, vm, r, 0, 0);
        p.zero(r, 0, 0)
    } else if m == mn::VPSRLDQ {
        lemma_rotated(p, consts, vm, r, b, n as u8, shuffle::top_lanes(n));
        p.vpshufd(r, Rm::Reg(b), shuffle::rotation(n), 0).zero_lanes(r, shuffle::top_lanes(n))
    } else if m == mn::VPSLLDQ {
        lemma_rotated(p, consts, vm, r, b, (4 - n) as u8, shuffle::bottom_lanes(n));
        p.vpshufd(r, Rm::Reg(b), shuffle::rotation(4 - n), 0).zero_lanes(
            r,
            shuffle::bottom_lanes(n),
        )
    } else if n >= 4 {
        lemma_rotated(p, consts, vm, r, a, (n - 4) as u8, shuffle::top_lanes(n - 4));
        p.vpshufd(r, Rm::Reg(a), shuffle::rotation(n - 4), 0).zero_lanes(
            r,
            shuffle::top_lanes(n - 4),
        )
    } else {
        let rot = shuffle::rotation(n);
        let sh = (rot, rot, shuffle::top_lanes(n));
        lemma_interleave(p.temp(), consts, vm, r, t, b, a, sh);
        p
            .temp()
            .vpshufd(r, Rm::Reg(b), rot, 0)
            .vpshufd(t, Rm::Reg(a), rot, 0)
            .mask_imm(shuffle::top_lanes(n))
            .vmov(r, Rm::Reg(t), p.kscr, 0)
    };
    let v = q.meaning(consts, vm).z[r];
    assert forall|i: int| 0 <= i < 16 implies #[trigger] v[i] == new[i] by {
        meaning::lemma_lanes(i as u16);
        meaning::lemma_bits(0, 0, i as u16);
        meaning::lemma_fields((i % 4) as u8, 0);
        assert(4 * (i / 4) == i - i % 4);
    }
    assert(v =~= new);
    meaning::lemma_commit_takes(q, d, r, ev);
    meaning::law_commit(q, consts, vm, d, r, ev);
    assert(fin.temps[0] == r);
    if q.temps.len() == 2 {
        assert(fin.temps[1] == t);
    }
}

/// What valignq takes from two vectors of length `ll`: their qwords from the
/// one that the immediate names on, the second source followed by the first.
pub open spec fn qwords_from(a: Seq<u32>, b: Seq<u32>, ll: u8, imm: u8) -> Seq<u32> {
    let n = meaning::dwords_of(ll);
    (b.take(n) + a.take(n)).skip(2 * shuffle::qwords_shifted(ll, imm))
}

/// valignq takes the qwords of its length from the one that the immediate
/// names on of the second source followed by the first, and writes them as
/// AVX-512 does.
pub proof fn law_valignq(insn: Decoded, ev: Ev, scratch: i32, vm: Vm)
    requires
        meaning::between(insn, ev),
        meaning::named(insn, ev.reg),
        meaning::named(insn, ev.vvvv),
        meaning::named(insn, ev.rm),
        vm.wf(),
    ensures
        ({
            let p = shuffle::valignq_outcome(insn, ev, scratch)->Thunk_0;
            let after = p.meaning(p.consts, vm);
            &&& shuffle::valignq_outcome(insn, ev, scratch) is Thunk
            &&& meaning::apart(vm, after, p.temps, ev.reg, p.kscr)
            &&& after.z[ev.reg] == meaning::written(
                ev,
                vm.z[ev.reg],
                qwords_from(vm.z[ev.vvvv], vm.z[ev.rm], ev.ll, insn.head.imm8),
                vm.k[ev.aaa],
            )
        }),
{
    let imm = insn.head.imm8;
    let p0 = Prog::start(scratch, insn);
    let fin = shuffle::valignq_outcome(insn, ev, scratch)->Thunk_0;
    let consts = fin.consts;
    meaning::lemma_start(scratch, insn, ev);
    meaning::lemma_temp(p0, consts, vm);
    meaning::lemma_temp(p0.temp(), consts, vm);
    assert(p0.meaning(consts, vm) == vm);
    lemma_place(ev.ll, imm, 0);
    let r = p0.next_temp();
    let p = p0.temp();
    let t = p.next_temp();
    let n = (shuffle::qwords_shifted(ev.ll, imm) * 2) as u8;
    let (a, b) = (ev.vvvv, ev.rm);
    let new = qwords_from(vm.z[a], vm.z[b], ev.ll, imm);
    let q = if ev.ll == 2 {
        meaning::lemma_valignd(p, consts, vm, r, a, b, n);
        p.valignd(r, a, Rm::Reg(b), n, 0)
    } else {
        let lanes: u16 = if ev.ll == 1 {
            0xff00
        } else {
            0x00f0
        };
        let perm: u8 = if ev.ll == 1 {
            0x4e
        } else {
            0x00
        };
        let p1 = p.temp();
        meaning::lemma_vmov(p1, consts, vm, t, Rm::Reg(b), 0);
        let p2 = p1.vmov(t, Rm::Reg(b), 0, 0);
        meaning::lemma_mask_imm(p2, consts, vm, lanes);
        let p3 = p2.mask_imm(lanes);
        meaning::lemma_vpermf32x4(p3, consts, vm, t, a, perm, p0.kscr);
        let p4 = p3.vpermf32x4(t, Rm::Reg(a), perm, p0.kscr);
        let m4 = p4.meaning(consts, vm);
        let len = meaning::dwords_of(ev.ll);
        let both = vm.z[b].take(len) + vm.z[a].take(len);
        assert forall|i: int| 0 <= i < 2 * len implies #[trigger] m4.z[t][i] == both[i] by {
            meaning::lemma_lanes(i as u16);
            meaning::lemma_fields((i / 4) as u8, 0);
        }
        meaning::lemma_valignd(p4, consts, vm, r, t, t, n);
        let p5 = p4.valignd(r, t, Rm::Reg(t), n, 0);
        assert forall|i: int| 0 <= i < len implies #[trigger] p5.meaning(consts, vm).z[r][i]
            == new[i] by {
            assert(m4.z[t][i + n] == both[i + n]);
        }
        p5
    };
    let v = q.meaning(consts, vm).z[r];
    assert forall|i: int| 0 <= i < meaning::dwords_of(ev.ll) implies #[trigger] v[i] == new[i] by {}
    meaning::lemma_commit_takes(q, ev.reg, r, ev);
    meaning::law_commit(q, consts, vm, ev.reg, r, ev);
    assert(meaning::written(ev, vm.z[ev.reg], v, vm.k[ev.aaa]) =~= meaning::written(
        ev,
        vm.z[ev.reg],
        new,
        vm.k[ev.aaa],
    ));
    assert(fin.temps[0] == r);
    if ev.ll != 2 {
        assert(fin.temps[1] == t);
    }
}

/// The instruction that a general rewrite runs, without its mask.
pub open spec fn unmasked(insn: Decoded, ev: Ev, c: Canon) -> Mvex {
    Mvex {
        map: c.map,
        pp: c.pp,
        w: c.w,
        op: c.op,
        reg: if ev::dest_is_vvvv(ev) { ev.reg & 7 } else { ev.reg },
        vvvv: ev.vvvv,
        rm: Rm::Reg(ev.rm),
        k: 0,
        sss: 0,
        imm: table::immediate(insn, c),
    }
}

/// An instruction run under the lanes it looks at, and settled, is written as
/// AVX-512 writes it, of the elements that its mask selects.
pub proof fn lemma_settled(
    p: Prog,
    consts: Seq<Seq<u8>>,
    vm: Vm,
    ev: Ev,
    d: u8,
    keff: u8,
    old: Seq<u32>,
    v: Seq<u32>,
    mask: u16,
    grain: u8,
)
    requires
        p.meaning(consts, vm).wf(),
        !table::writes_mask(ev),
        ev.ll <= 2,
        ev.w <= 1,
        ev.z ==> ev.aaa != 0 && table::grain(ev) == grain,
        ev.w <= grain <= 1,
        p.kscr != 0,
        ev.aaa != p.kscr,
        keff == (if ev.ll == 2 {
            ev.aaa
        } else {
            p.kscr
        }),
        ({
            let before = p.meaning(consts, vm);
            &&& before.z[d] == meaning::merged(old, v, keff, before.k[keff], grain)
            &&& ev.ll == 2 ==> before.k[keff] == mask
            &&& forall|b: int|
                0 <= b < 16 && ev.ll != 2 ==> #[trigger] meaning::bit(before.k[keff], b)
                    == (meaning::bit(ev::vl_lanes(ev.ll, ev.w), b) && (ev.aaa == 0 || meaning::bit(
                    mask,
                    b,
                )))
        }),
    ensures
        ({
            let before = p.meaning(consts, vm);
            let q = p.settled(ev, d, keff);
            let after = q.meaning(consts, vm);
            &&& q.kscr == p.kscr && q.temps == p.temps
            &&& after.wf()
            &&& after.mem == before.mem
            &&& forall|r: u8| r != d ==> #[trigger] after.z[r] == before.z[r]
            &&& forall|k: u8| k != p.kscr ==> #[trigger] after.k[k] == before.k[k]
            &&& after.z[d] == meaning::written(Ev { w: grain, ..ev }, old, v, mask)
        }),
{
    broadcast use meaning::lemma_run;

    let before = p.meaning(consts, vm);
    let vl = ev::vl_lanes(ev.ll, ev.w);
    let pz = p.step(Step::K).vexk(0x44, p.kscr, keff);
    let p3 = if ev.z {
        meaning::lemma_zero(pz, consts, vm, d, p.kscr, grain);
        pz.zero(d, p.kscr, grain)
    } else {
        p
    };
    let m3 = p3.meaning(consts, vm);
    assert forall|i: int| 0 <= i < 16 implies #[trigger] m3.z[d][i] == (if ev.z && !meaning::bit(
        before.k[keff],
        if grain == 0 {
            i
        } else {
            i / 2
        },
    ) {
        0
    } else {
        before.z[d][i]
    }) by {
        let j: int = if grain == 0 { i } else { i / 2 };
        meaning::lemma_bits(before.k[keff], 0, j as u16);
    }
    if ev.ll != 2 {
        let up = ev::upper(ev.ll);
        meaning::lemma_mask_imm(p3, consts, vm, up);
        meaning::lemma_zero(p3.mask_imm(up), consts, vm, d, p.kscr, 0);
    }
    let after = p.settled(ev, d, keff).meaning(consts, vm);
    let new = meaning::written(Ev { w: grain, ..ev }, old, v, mask);
    assert forall|i: int| 0 <= i < 16 implies #[trigger] after.z[d][i] == new[i] by {
        let j: int = if grain == 0 { i } else { i / 2 };
        meaning::lemma_lanes(i as u16);
        meaning::lemma_lanes(j as u16);
        assert(m3.z[d][i] == m3.z[d][i]);
        assert(ev.ll != 2 ==> meaning::bit(before.k[keff], j) == (meaning::bit(vl, j) && (ev.aaa
            == 0 || meaning::bit(mask, j))));
    }
    assert(after.z[d] =~= new);
}

/// A narrow, masked or zeroing form of an instruction of the table, its second
/// source a register or an element broadcast from memory, writes what the
/// card's full form computes as AVX-512 writes it, whatever that is. vmovddup
/// is refused under a mask, and vcvtps2pd has a law of its own there.
#[verifier::rlimit(40)]
pub proof fn law_generic(insn: Decoded, ev: Ev, c: Canon, scratch: i32, vm: Vm)
    requires
        meaning::shaped(insn, ev),
        insn.has_mem() ==> ev.b,
        meaning::at_hand(vm, insn, ev),
        rewrite::spelling(ev) == Some(c),
        c.w == ev.w,
        !table::is_store(ev),
        !Vm::uses_mask(unmasked(insn, ev, c)),
        !table::writes_mask(ev),
        ev.z ==> ev.aaa != 0,
        table::uneven(ev) || table::grain(ev) != ev.w ==> ev.aaa == 0,
        vm.wf(),
        forall|m: Mvex, o: Seq<u32>, a: Seq<u32>, b: Seq<u32>|
            (#[trigger] (vm.alu)(m, o, a, b)).len() == 16,
    ensures
        ({
            let d = if ev::dest_is_vvvv(ev) {
                ev.vvvv
            } else {
                ev.reg
            };
            let p = table::generic_outcome(insn, ev, c, scratch)->Thunk_0;
            let after = p.meaning(p.consts, vm);
            &&& table::generic_outcome(insn, ev, c, scratch) is Thunk
            &&& meaning::apart(vm, after, p.temps, d, p.kscr)
            &&& after.z[d] == meaning::written(
                ev,
                vm.z[d],
                vm.computed(
                    unmasked(insn, ev, c),
                    vm.z[d],
                    vm.z[ev.vvvv],
                    meaning::second(vm, insn, ev),
                ),
                vm.k[ev.aaa],
            )
        }),
{
    broadcast use meaning::lemma_run;

    let full = ev.ll == 2;
    let d = if ev::dest_is_vvvv(ev) {
        ev.vvvv
    } else {
        ev.reg
    };
    let m = unmasked(insn, ev, c);
    let p0 = Prog::start(scratch, insn);
    let fin = table::generic_outcome(insn, ev, c, scratch)->Thunk_0;
    let consts = fin.consts;
    meaning::lemma_begin(scratch, insn, ev);
    assert(p0.meaning(consts, vm) == vm);
    let vl = ev::vl_lanes(ev.ll, ev.w);
    meaning::lemma_mask_imm(p0, consts, vm, vl);
    let keff = if full {
        ev.aaa
    } else {
        p0.kscr
    };
    let p1 = if full {
        p0
    } else {
        p0.masked_lanes(vl, ev.aaa)
    };
    let before = p1.meaning(consts, vm);
    assert(before.z == vm.z && before.alu == vm.alu && before.ok && before.mem == vm.mem
        && before.addr == vm.addr);
    let (rm, sss) = meaning::second_rm(insn, ev);
    let p2 = p1.mvex(c.map, c.pp, c.w, c.op, m.reg, ev.vvvv, rm, keff, sss, m.imm);
    meaning::lemma_second(p1, consts, vm, insn, ev, m, keff);
    let v = vm.computed(m, vm.z[d], vm.z[ev.vvvv], meaning::second(vm, insn, ev));
    assert(meaning::second(before, insn, ev) =~= meaning::second(vm, insn, ev));
    let ran = p2.meaning(consts, vm);
    assert(ran.z[d] == meaning::merged(vm.z[d], v, keff, before.k[keff], ev.w));
    assert(ran.z == vm.z.insert(d, ran.z[d]));
    assert(fin == p2.settled(ev, d, keff));
    assert forall|b: int| 0 <= b < 16 && !full implies #[trigger] meaning::bit(before.k[keff], b)
        == (meaning::bit(vl, b) && (ev.aaa == 0 || meaning::bit(vm.k[ev.aaa], b))) by {
        meaning::lemma_bits(vl, vm.k[ev.aaa], b as u16);
    }
    lemma_settled(p2, consts, vm, ev, d, keff, vm.z[d], v, vm.k[ev.aaa], ev.w);
}

} // verus!
