//! What the rewritten compares of bytes and words tell, in the model of
//! [`crate::xlate::meaning`]: whether the compare holds of any element.
use crate::bits;
use crate::xlate::bytewise;
use crate::xlate::code::{Mvex, Rm};
use crate::xlate::compare_results;
use crate::xlate::ev;
use crate::xlate::ev::Ev;
use crate::xlate::insn::Decoded;
use crate::xlate::laws;
use crate::xlate::meaning;
use crate::xlate::meaning::Vm;
use crate::xlate::permute_results;
use crate::xlate::prog;
use crate::xlate::prog::Prog;
use crate::xlate::results;
use crate::xlate::rewrite;
use crate::xlate::table;
use crate::xlate::table::Canon;
use vstd::prelude::*;

verus! {

/// How many words, or bytes, `n` dwords have.
pub open spec fn count(words: bool, n: int) -> int {
    if words {
        2 * n
    } else {
        4 * n
    }
}

/// Byte, or word, `j` of a vector.
pub open spec fn element(z: Seq<u32>, words: bool, j: int) -> int {
    if words {
        meaning::part(z[j / 2], 2 * j, 2)
    } else {
        meaning::part(z[j / 4], j, 1)
    }
}

/// Whether the first `n` dwords of two vectors have a byte, or word, at one
/// place that is the same in both.
pub open spec fn any_equal(words: bool, a: Seq<u32>, b: Seq<u32>, n: int) -> bool {
    exists|j: int|
        0 <= j < count(words, n) && #[trigger] element(a, words, j) == element(b, words, j)
}

/// Whether they have one that differs.
pub open spec fn any_differ(words: bool, a: Seq<u32>, b: Seq<u32>, n: int) -> bool {
    exists|j: int|
        0 <= j < count(words, n) && #[trigger] element(a, words, j) != element(b, words, j)
}

/// Whether two dwords have an equal byte, or word.
spec fn share(words: bool, a: u32, b: u32) -> bool {
    if words {
        a % 0x1_0000 == b % 0x1_0000 || a / 0x1_0000 == b / 0x1_0000
    } else {
        a % 0x100 == b % 0x100 || a / 0x100 % 0x100 == b / 0x100 % 0x100 || a / 0x1_0000 % 0x100 == b
            / 0x1_0000 % 0x100 || a / 0x100_0000 == b / 0x100_0000
    }
}

/// A zero byte, or word, borrows from its top bit when one is taken from it,
/// and the lowest does so alone.
proof fn lemma_borrow(words: bool, a: u32, b: u32)
    ensures
        ({
            let x = a ^ b;
            let y = ((x + bytewise::less_one(words)) % 0x1_0000_0000) as u32;
            ((!x & y) & bytewise::top_bits(words) != 0) == share(words, a, b)
        }),
{
    let y = (((a ^ b) + 0xfefe_feffu32) % 0x1_0000_0000) as u32;
    let w = (((a ^ b) + 0xfffe_ffffu32) % 0x1_0000_0000) as u32;
    assert(((!(a ^ b) & y) & 0x8080_8080 != 0 <==> (a % 0x100 == b % 0x100 || a / 0x100 % 0x100 == b
        / 0x100 % 0x100 || a / 0x1_0000 % 0x100 == b / 0x1_0000 % 0x100 || a / 0x100_0000 == b
        / 0x100_0000)) && ((!(a ^ b) & w) & 0x8000_8000 != 0 <==> (a % 0x1_0000 == b % 0x1_0000 || a
        / 0x1_0000 == b / 0x1_0000))) by (bit_vector)
        requires
            y == (((a ^ b) + 0xfefe_feffu32) % 0x1_0000_0000) as u32,
            w == (((a ^ b) + 0xfffe_ffffu32) % 0x1_0000_0000) as u32,
    ;
}

/// The elements of dword `i`.
proof fn lemma_elements(words: bool, a: Seq<u32>, b: Seq<u32>, i: int)
    requires
        i >= 0,
    ensures
        share(words, a[i], b[i]) == exists|j: int|
            count(words, i) <= j < count(words, i + 1) && #[trigger] element(
                a,
                words,
                j,
            ) == element(b, words, j),
        (a[i] != b[i]) == exists|j: int|
            count(words, i) <= j < count(words, i + 1) && #[trigger] element(
                a,
                words,
                j,
            ) != element(b, words, j),
{
    let (x, y) = (a[i], b[i]);
    if words {
        assert(element(a, words, 2 * i) == x % 0x1_0000);
        assert(element(b, words, 2 * i) == y % 0x1_0000);
        assert(element(a, words, 2 * i + 1) == x / 0x1_0000);
        assert(element(b, words, 2 * i + 1) == y / 0x1_0000);
    } else {
        assert(element(a, words, 4 * i) == x % 0x100);
        assert(element(b, words, 4 * i) == y % 0x100);
        assert(element(a, words, 4 * i + 1) == x / 0x100 % 0x100);
        assert(element(b, words, 4 * i + 1) == y / 0x100 % 0x100);
        assert(element(a, words, 4 * i + 2) == x / 0x1_0000 % 0x100);
        assert(element(b, words, 4 * i + 2) == y / 0x1_0000 % 0x100);
        assert(element(a, words, 4 * i + 3) == x / 0x100_0000);
        assert(element(b, words, 4 * i + 3) == y / 0x100_0000);
    }
}

/// A mask that is not zero has a bit.
proof fn lemma_some_bit(m: u16)
    ensures
        (m != 0) == exists|i: int| 0 <= i < 16 && #[trigger] meaning::bit(m, i),
{
    if m == 0 {
        assert forall|i: int| 0 <= i < 16 implies !#[trigger] meaning::bit(m, i) by {
            meaning::lemma_bits(m, m, i as u16);
        }
    } else {
        assert((m >> 0u16) & 1 == 1 || (m >> 1u16) & 1 == 1 || (m >> 2u16) & 1 == 1 || (m >> 3u16) & 1
            == 1 || (m >> 4u16) & 1 == 1 || (m >> 5u16) & 1 == 1 || (m >> 6u16) & 1 == 1 || (m
            >> 7u16) & 1 == 1 || (m >> 8u16) & 1 == 1 || (m >> 9u16) & 1 == 1 || (m >> 10u16) & 1
            == 1 || (m >> 11u16) & 1 == 1 || (m >> 12u16) & 1 == 1 || (m >> 13u16) & 1 == 1 || (m
            >> 14u16) & 1 == 1 || (m >> 15u16) & 1 == 1) by (bit_vector)
            requires
                m != 0,
        ;
        assert(meaning::bit(m, 0) || meaning::bit(m, 1) || meaning::bit(m, 2) || meaning::bit(m, 3)
            || meaning::bit(m, 4) || meaning::bit(m, 5) || meaning::bit(m, 6) || meaning::bit(m, 7)
            || meaning::bit(m, 8) || meaning::bit(m, 9) || meaning::bit(m, 10) || meaning::bit(
            m,
            11,
        ) || meaning::bit(m, 12) || meaning::bit(m, 13) || meaning::bit(m, 14) || meaning::bit(
            m,
            15,
        ));
    }
}

/// A mask with the bits of the dwords that share an element is zero exactly
/// when the vectors share none.
proof fn lemma_any_equal(m: u16, words: bool, a: Seq<u32>, b: Seq<u32>, n: int)
    requires
        0 <= n <= 16,
        forall|i: int|
            0 <= i < 16 ==> #[trigger] meaning::bit(m, i) == (i < n && share(words, a[i], b[i])),
    ensures
        (m == 0) == !any_equal(words, a, b, n),
{
    lemma_some_bit(m);
    if m != 0 {
        let i = choose|i: int| 0 <= i < 16 && #[trigger] meaning::bit(m, i);
        lemma_elements(words, a, b, i);
        let j = choose|j: int|
            count(words, i) <= j < count(words, i + 1) && #[trigger] element(
                a,
                words,
                j,
            ) == element(b, words, j);
        assert(0 <= j < count(words, n));
    }
    if any_equal(words, a, b, n) {
        let j = choose|j: int|
            0 <= j < count(words, n) && #[trigger] element(a, words, j) == element(
                b,
                words,
                j,
            );
        let i = if words {
            j / 2
        } else {
            j / 4
        };
        lemma_elements(words, a, b, i);
        assert(0 <= i < n);
        assert(meaning::bit(m, i));
    }
}

/// The same of the dwords that differ.
proof fn lemma_any_differ(m: u16, words: bool, a: Seq<u32>, b: Seq<u32>, n: int)
    requires
        0 <= n <= 16,
        forall|i: int| 0 <= i < 16 ==> #[trigger] meaning::bit(m, i) == (i < n && a[i] != b[i]),
    ensures
        (m == 0) == !any_differ(words, a, b, n),
{
    lemma_some_bit(m);
    if m != 0 {
        let i = choose|i: int| 0 <= i < 16 && #[trigger] meaning::bit(m, i);
        lemma_elements(words, a, b, i);
        let j = choose|j: int|
            count(words, i) <= j < count(words, i + 1) && #[trigger] element(
                a,
                words,
                j,
            ) != element(b, words, j);
        assert(i < n);
        assert(0 <= j < count(words, n));
    }
    if any_differ(words, a, b, n) {
        let j = choose|j: int|
            0 <= j < count(words, n) && #[trigger] element(a, words, j) != element(
                b,
                words,
                j,
            );
        let i = if words {
            j / 2
        } else {
            j / 4
        };
        lemma_elements(words, a, b, i);
        assert(0 <= i < n);
        assert(meaning::bit(m, i));
    }
}

/// The dwords that share an element, marked.
spec fn shared(p: Prog, words: bool, x: u8, y: u8, a: u8, b: u8, kd: u8) -> Prog {
    let ones = p.index_of(prog::splat32(bytewise::less_one(words)));
    let p1 = p.constant(prog::splat32(bytewise::less_one(words)));
    let tops = p1.index_of(prog::splat32(bytewise::top_bits(words)));
    p1
        .constant(prog::splat32(bytewise::top_bits(words)))
        .i0f(0xEF, x, a, Rm::Reg(b), 0, 0)
        .i0f(0xFE, y, x, Rm::Const(ones), 0, 0)
        .i0f(0xDF, y, x, Rm::Reg(y), 0, 0)
        .mvex(2, 1, 0, 0x27, kd, y, Rm::Const(tops), 0, 0, None)
}

proof fn lemma_shared(
    p: Prog,
    consts: Seq<Seq<u8>>,
    vm: Vm,
    words: bool,
    x: u8,
    y: u8,
    a: u8,
    b: u8,
    kd: u8,
)
    requires
        p.consts.len() < 6,
        permute_results::begins(shared(p, words, x, y, a, b, kd).consts, consts),
        p.meaning(consts, vm) == vm,
        vm.wf(),
        x != y,
    ensures
        ({
            let after = shared(p, words, x, y, a, b, kd).meaning(consts, vm);
            &&& after.wf()
            &&& after.mem == vm.mem
            &&& forall|r: u8| r != x && r != y ==> #[trigger] after.z[r] == vm.z[r]
            &&& forall|k: u8| k != kd ==> #[trigger] after.k[k] == vm.k[k]
            &&& forall|i: int|
                0 <= i < 16 ==> #[trigger] meaning::bit(after.k[kd], i) == share(
                    words,
                    vm.z[a][i],
                    vm.z[b][i],
                )
        }),
{
    let ones = Seq::new(16, |i: int| bytewise::less_one(words));
    let tops = Seq::new(16, |i: int| bytewise::top_bits(words));
    let c = p.index_of(prog::splat32(bytewise::less_one(words)));
    let p1 = p.constant(prog::splat32(bytewise::less_one(words)));
    let d = p1.index_of(prog::splat32(bytewise::top_bits(words)));
    let p2 = p1.constant(prog::splat32(bytewise::top_bits(words)));
    assert(p1.consts.len() <= p.consts.len() + 1);
    permute_results::lemma_held(p1, tops, consts);
    permute_results::lemma_held(p, ones, consts);
    assert(p2.meaning(consts, vm) == vm);
    let p3 = p2.i0f(0xEF, x, a, Rm::Reg(b), 0, 0);
    meaning::lemma_i0f(p2, consts, vm, 0xEF, x, a, Rm::Reg(b), 0);
    let m3 = p3.meaning(consts, vm);
    let p4 = p3.i0f(0xFE, y, x, Rm::Const(c), 0, 0);
    meaning::lemma_i0f(p3, consts, vm, 0xFE, y, x, Rm::Const(c), 0);
    let m4 = p4.meaning(consts, vm);
    let p5 = p4.i0f(0xDF, y, x, Rm::Reg(y), 0, 0);
    meaning::lemma_i0f(p4, consts, vm, 0xDF, y, x, Rm::Reg(y), 0);
    let m5 = p5.meaning(consts, vm);
    permute_results::lemma_tested(p5, consts, vm, kd, y, d);
    let after = shared(p, words, x, y, a, b, kd).meaning(consts, vm);
    assert forall|i: int| 0 <= i < 16 implies #[trigger] meaning::bit(after.k[kd], i) == share(
        words,
        vm.z[a][i],
        vm.z[b][i],
    ) by {
        let v = vm.z[a][i] ^ vm.z[b][i];
        assert(m3.z[x][i] == v);
        assert(m4.z[y][i] == ((v + ones[i]) % 0x1_0000_0000) as u32);
        assert(m5.z[y][i] == !v & m4.z[y][i]);
        lemma_borrow(words, vm.z[a][i], vm.z[b][i]);
    }
}

/// A compare for equal bytes, or words, between registers leaves a mask that is
/// zero exactly when no element of the length is equal; it changes no other
/// register but temporaries and the scratch mask.
pub proof fn law_bytes_equal(insn: Decoded, ev: Ev, words: bool, scratch: i32, vm: Vm)
    requires
        meaning::between(insn, ev),
        meaning::named(insn, ev.vvvv),
        meaning::named(insn, ev.rm),
        prog::mask_regs(insn).contains(ev.reg & 7),
        vm.wf(),
    ensures
        ({
            let p = bytewise::equal_outcome(insn, ev, words, scratch)->Thunk_0;
            let kd = ev.reg & 7;
            let after = p.meaning(p.consts, vm);
            &&& bytewise::equal_outcome(insn, ev, words, scratch) is Thunk
            &&& after.wf()
            &&& after.mem == vm.mem
            &&& forall|r: u8| !p.temps.contains(r) ==> #[trigger] after.z[r] == vm.z[r]
            &&& forall|k: u8| k != kd && k != p.kscr ==> #[trigger] after.k[k] == vm.k[k]
            &&& (after.k[kd] == 0) == !any_equal(
                words,
                vm.z[ev.vvvv],
                vm.z[ev.rm],
                meaning::dwords_of(ev.ll),
            )
        }),
{
    let fin = bytewise::equal_outcome(insn, ev, words, scratch)->Thunk_0;
    let consts = fin.consts;
    let kd = ev.reg & 7;
    let p0 = Prog::start(scratch, insn);
    meaning::lemma_start(scratch, insn, ev);
    laws::law_scratch_mask(scratch, insn);
    bits::lemma_low(ev.reg);
    let x = p0.next_temp();
    let y = p0.temp().next_temp();
    let p1 = p0.temp().temp();
    assert(p0.meaning(consts, vm) == vm);
    meaning::lemma_temp(p0, consts, vm);
    meaning::lemma_temp(p0.temp(), consts, vm);
    let q = shared(p1, words, x, y, ev.vvvv, ev.rm, kd);
    let vl = ev::vl_lanes(ev.ll, 0);
    assert(fin == if ev.ll == 2 {
        q
    } else {
        q.mask_imm(vl).vexk(0x41, kd, q.kscr)
    });
    assert(q.consts == consts && q.kscr == p0.kscr && fin.temps == seq![x, y]);
    lemma_shared(p1, consts, vm, words, x, y, ev.vvvv, ev.rm, kd);
    let ran = q.meaning(consts, vm);
    let after = fin.meaning(consts, vm);
    assert(fin.temps[0] == x && fin.temps[1] == y);
    if ev.ll != 2 {
        meaning::lemma_mask_imm(q, consts, vm, vl);
        lemma_anded(q.mask_imm(vl), consts, vm, kd, q.kscr);
    }
    let (a, b) = (vm.z[ev.vvvv], vm.z[ev.rm]);
    let n = meaning::dwords_of(ev.ll);
    assert forall|i: int| 0 <= i < 16 implies #[trigger] meaning::bit(after.k[kd], i) == (i < n
        && share(words, a[i], b[i])) by {
        assert(meaning::bit(ran.k[kd], i) == share(words, a[i], b[i]));
        meaning::lemma_lanes(i as u16);
        meaning::lemma_bits(ran.k[kd], vl, i as u16);
    }
    lemma_any_equal(after.k[kd], words, a, b, n);
}

/// Two masks joined by `and`.
proof fn lemma_anded(p: Prog, consts: Seq<Seq<u8>>, vm: Vm, kd: u8, k: u8)
    requires
        p.meaning(consts, vm).ok,
    ensures
        ({
            let before = p.meaning(consts, vm);
            let after = p.vexk(0x41, kd, k).meaning(consts, vm);
            after == (Vm { k: before.k.insert(kd, before.k[kd] & before.k[k]), ..before })
        }),
{
    broadcast use meaning::lemma_run;

}

/// The card's compare of dwords for a difference, which stands in place of one
/// of bytes or words.
pub open spec fn differ(kd: u8, a: u8, b: u8) -> Mvex {
    Mvex {
        map: 3,
        pp: 1,
        w: 0,
        op: 0x1F,
        reg: kd,
        vvvv: a,
        rm: Rm::Reg(b),
        k: 0,
        sss: 0,
        imm: Some(4),
    }
}

/// In place, that compare leaves a mask that is zero exactly when no byte, and
/// no word, differs.
pub proof fn law_bytes_differ(vm: Vm, consts: Seq<Seq<u8>>, words: bool, kd: u8, a: u8, b: u8)
    requires
        vm.wf(),
    ensures
        ({
            let after = vm.mvex(consts, differ(kd, a, b));
            &&& after == (Vm { k: vm.k.insert(kd, after.k[kd]), ..vm })
            &&& (after.k[kd] == 0) == !any_differ(words, vm.z[a], vm.z[b], 16)
        }),
{
    let m = differ(kd, a, b);
    let after = vm.mvex(consts, m);
    let f = |i: int| meaning::selects(vm, m.k, i) && Vm::found(m, vm.z[a], vm.z[b], i);
    assert(after.k[kd] == meaning::mask_where(f, 16));
    assert forall|i: int| 0 <= i < 16 implies #[trigger] meaning::bit(after.k[kd], i) == (
    vm.z[a][i] != vm.z[b][i]) by {
        meaning::lemma_mask_where(f, 16, i);
    }
    lemma_any_differ(after.k[kd], words, vm.z[a], vm.z[b], 16);
}

/// A narrow compare of dwords for a difference does so of its length.
pub proof fn law_narrow_bytes_differ(
    insn: Decoded,
    ev: Ev,
    c: Canon,
    words: bool,
    scratch: i32,
    vm: Vm,
)
    requires
        meaning::between(insn, ev),
        rewrite::spelling(ev) == Some(c),
        table::writes_mask(ev),
        results::unmasked(insn, ev, c) == differ(ev.reg, ev.vvvv, ev.rm),
        ev.w == 0,
        ev.aaa == 0,
        ev.reg < 8,
        prog::mask_regs(insn).contains(ev.reg),
        vm.wf(),
    ensures
        ({
            let p = table::generic_outcome(insn, ev, c, scratch)->Thunk_0;
            let after = p.meaning(p.consts, vm);
            &&& table::generic_outcome(insn, ev, c, scratch) is Thunk
            &&& (after.k[ev.reg] == 0) == !any_differ(
                words,
                vm.z[ev.vvvv],
                vm.z[ev.rm],
                meaning::dwords_of(ev.ll),
            )
        }),
{
    compare_results::law_generic_compare(insn, ev, c, scratch, vm);
    let p = table::generic_outcome(insn, ev, c, scratch)->Thunk_0;
    let after = p.meaning(p.consts, vm);
    let (a, b) = (vm.z[ev.vvvv], vm.z[ev.rm]);
    let n = meaning::dwords_of(ev.ll);
    assert forall|i: int| 0 <= i < 16 implies #[trigger] meaning::bit(after.k[ev.reg], i) == (i < n
        && a[i] != b[i]) by {
        meaning::lemma_lanes(i as u16);
    }
    lemma_any_differ(after.k[ev.reg], words, a, b, n);
}

} // verus!
