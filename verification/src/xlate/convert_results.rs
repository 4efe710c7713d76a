//! What the rewritten widening moves and float16 conversions compute, in the
//! model of [`crate::xlate::meaning`].
use crate::xlate::code::{MemOp, Mvex, Rm, S_XFER};
use crate::xlate::convert;
use crate::xlate::ev;
use crate::xlate::ev::Ev;
use crate::xlate::insn::Decoded;
use crate::xlate::laws;
use crate::xlate::meaning;
use crate::xlate::meaning::Vm;
use crate::xlate::memory_results;
use crate::xlate::mnemonic as mn;
use crate::xlate::prog;
use crate::xlate::prog::{Prog, Step};
use vstd::prelude::*;

verus! {

/// Whether the elements of `bytes` bytes at the operand are ones the unaligned
/// pairs can address in `vm`: on a boundary of their own, the address of the
/// second line 64 bytes after the first.
pub open spec fn loadable(vm: Vm, m: MemOp, bytes: int) -> bool {
    &&& (vm.addr)(m) % bytes == 0
    &&& (vm.addr)(m.spec_plus(64)) == (vm.addr)(m) + 64
}

/// Element `i` of the source, of `bytes` bytes.
pub open spec fn source_element(vm: Vm, insn: Decoded, ev: Ev, bytes: int, i: int) -> int {
    match MemOp::spec_of(insn) {
        None => meaning::part(vm.z[ev.rm][bytes * i / 4], bytes * i, bytes),
        Some(m) => {
            let y = (vm.addr)(m) + bytes * i;
            meaning::part((vm.mem)(y - y % 4), y, bytes)
        },
    }
}

/// The source's elements, converted to dwords as `sss` says.
pub open spec fn source_converted(vm: Vm, insn: Decoded, ev: Ev, sss: u8) -> Seq<u32> {
    Seq::new(
        16,
        |i: int|
            vm.converted(sss, source_element(vm, insn, ev, meaning::element_bytes(sss), i)),
    )
}

/// Whether the source can be read where it is.
pub open spec fn at_source(vm: Vm, insn: Decoded, ev: Ev, sss: u8) -> bool {
    match MemOp::spec_of(insn) {
        None => meaning::named(insn, ev.rm),
        Some(m) => loadable(vm, m, meaning::element_bytes(sss)),
    }
}

/// The sequence `p` with the source's elements brought into `r`, converted:
/// from memory by the unaligned pair, from a register by way of the transfer
/// slot.
spec fn brought(p: Prog, insn: Decoded, ev: Ev, r: u8, sss: u8) -> Prog {
    let k = p.lane_k(ev.ll);
    match MemOp::spec_of(insn) {
        Some(m) => p.lane_mask(ev.ll).load_unaligned(r, m, k, sss == 3, sss),
        None => p.mask_imm(
            convert::packed_dwords(ev.ll, meaning::element_bytes(sss) as u16),
        ).mvex(2, 1, 0, 0xD0, ev.rm, 0, Rm::Fs(S_XFER), p.kscr, 0, None).lane_mask(ev.ll).mvex(
            1,
            if sss == 3 {
                0
            } else {
                1
            },
            0,
            if sss == 3 {
                0x28
            } else {
                0x6F
            },
            r,
            0,
            Rm::Fs(S_XFER),
            k,
            sss,
            None,
        ),
    }
}

/// The unaligned pair brings the elements of the first lanes, converted.
proof fn lemma_converting_pair(
    p: Prog,
    consts: Seq<Seq<u8>>,
    vm: Vm,
    d: u8,
    m: MemOp,
    k: u8,
    sss: u8,
    n: int,
)
    requires
        3 <= sss <= 7,
        loadable(p.meaning(consts, vm), m, meaning::element_bytes(sss)),
        memory_results::selects_first(p.meaning(consts, vm), k, n),
    ensures
        ({
            let before = p.meaning(consts, vm);
            let after = p.load_unaligned(d, m, k, sss == 3, sss).meaning(consts, vm);
            let bytes = meaning::element_bytes(sss);
            &&& meaning::fetched(before, after, d)
            &&& forall|i: int|
                0 <= i < n ==> #[trigger] after.z[d][i] == {
                    let y = (before.addr)(m) + bytes * i;
                    before.converted(sss, meaning::part((before.mem)(y - y % 4), y, bytes))
                }
        }),
{
    broadcast use meaning::lemma_run;

    reveal(Vm::converting);
    let before = p.meaning(consts, vm);
    let a = (before.addr)(m);
    let bytes = meaning::element_bytes(sss);
    let lo: u8 = if sss == 3 {
        0xD1
    } else {
        0xD0
    };
    let p1 = p.mvex(2, 0, 0, lo, d, 0, Rm::Mem(m), k, sss, None);
    let m1 = p1.meaning(consts, vm);
    let r0 = before.recovered(m);
    assert(m1 == (Vm { z: before.z.insert(d, r0.unpacked_as(sss, true, d, k, a)), ..r0 }));
    let r1 = m1.recovered(m.spec_plus(64));
    let after = p.load_unaligned(d, m, k, sss == 3, sss).meaning(consts, vm);
    assert((a + 64) % bytes == 0);
    assert(after == (Vm { z: m1.z.insert(d, r1.unpacked_as(sss, false, d, k, a)), ..r1 }));
    assert(after.z =~= before.z.insert(d, after.z[d]));
    assert forall|i: int| 0 <= i < n implies #[trigger] after.z[d][i] == {
        let y = (before.addr)(m) + bytes * i;
        before.converted(sss, meaning::part((before.mem)(y - y % 4), y, bytes))
    } by {
        memory_results::lemma_place(r0, k, n, i);
        memory_results::lemma_place(r1, k, n, i);
    }
}

/// The first `n` lanes stored to the transfer slot stand there.
proof fn lemma_filled(vm: Vm, s: u8, k: u8, n: int)
    requires
        memory_results::selects_first(vm, k, n),
    ensures
        forall|j: int| 0 <= j < n ==> #[trigger] vm.filled(s, k)[j] == vm.z[s][j],
{
    let held = Vm { mem: |y: int| vm.slot[y / 4], ..vm };
    assert forall|j: int| 0 <= j < n implies #[trigger] vm.filled(s, k)[j] == vm.z[s][j] by {
        memory_results::lemma_packed(held, true, s, k, 0, n, 4 * j);
        assert((4 * j) / 4 == j);
    }
}

/// How many dwords of a register hold the elements of `bytes` bytes of a
/// vector of length `ll`.
spec fn packed_count(ll: u8, bytes: int) -> int {
    meaning::dwords_of(ll) * bytes / 4
}

proof fn lemma_packed_dwords(p: Prog, consts: Seq<Seq<u8>>, vm: Vm, ll: u8, bytes: int)
    requires
        ll <= 2,
        bytes == 1 || bytes == 2,
        p.kscr != 0,
    ensures
        memory_results::selects_first(
            p.mask_imm(convert::packed_dwords(ll, bytes as u16)).meaning(consts, vm),
            p.kscr,
            packed_count(ll, bytes),
        ),
{
    let mask = convert::packed_dwords(ll, bytes as u16);
    let after = p.mask_imm(mask).meaning(consts, vm);
    meaning::lemma_mask_imm(p, consts, vm, mask);
    assert forall|i: int| 0 <= i < 16 implies #[trigger] meaning::bit(after.k[p.kscr], i) == (i
        < packed_count(ll, bytes)) by {
        meaning::lemma_lanes(i as u16);
    }
}

/// What bringing the source in changes, and what it leaves in `r`.
spec fn arrived(before: Vm, after: Vm, kscr: u8, insn: Decoded, ev: Ev, r: u8, sss: u8) -> bool {
    &&& after.wf()
    &&& forall|q: u8| q != r ==> #[trigger] after.z[q] == before.z[q]
    &&& forall|k: u8| k != kscr ==> #[trigger] after.k[k] == before.k[k]
    &&& after.mem == before.mem
    &&& forall|i: int|
        0 <= i < meaning::dwords_of(ev.ll) ==> #[trigger] after.z[r][i] == source_converted(
            before,
            insn,
            ev,
            sss,
        )[i]
}

proof fn lemma_from_memory(
    p: Prog,
    consts: Seq<Seq<u8>>,
    vm: Vm,
    insn: Decoded,
    ev: Ev,
    r: u8,
    sss: u8,
)
    requires
        p.meaning(consts, vm) == vm,
        vm.wf(),
        ev.ll <= 2,
        p.kscr != 0,
        3 <= sss <= 7,
        MemOp::spec_of(insn) is Some,
        at_source(vm, insn, ev, sss),
    ensures
        arrived(vm, brought(p, insn, ev, r, sss).meaning(consts, vm), p.kscr, insn, ev, r, sss),
{
    let m = MemOp::spec_of(insn)->0;
    memory_results::lemma_lane_mask(p, consts, vm, ev.ll);
    lemma_converting_pair(
        p.lane_mask(ev.ll),
        consts,
        vm,
        r,
        m,
        p.lane_k(ev.ll),
        sss,
        meaning::dwords_of(ev.ll),
    );
}

proof fn lemma_from_register(
    p: Prog,
    consts: Seq<Seq<u8>>,
    vm: Vm,
    insn: Decoded,
    ev: Ev,
    r: u8,
    sss: u8,
)
    requires
        p.meaning(consts, vm) == vm,
        vm.wf(),
        ev.ll <= 2,
        p.kscr != 0,
        3 <= sss <= 7,
        MemOp::spec_of(insn) is None,
    ensures
        arrived(vm, brought(p, insn, ev, r, sss).meaning(consts, vm), p.kscr, insn, ev, r, sss),
{
    broadcast use meaning::lemma_run;

    reveal(Vm::transfer);
    let bytes = meaning::element_bytes(sss);
    let mask = convert::packed_dwords(ev.ll, bytes as u16);
    let p1 = p.mask_imm(mask);
    let m1 = p1.meaning(consts, vm);
    meaning::lemma_mask_imm(p, consts, vm, mask);
    lemma_packed_dwords(p, consts, vm, ev.ll, bytes);
    let p2 = p1.mvex(2, 1, 0, 0xD0, ev.rm, 0, Rm::Fs(S_XFER), p.kscr, 0, None);
    let m2 = p2.meaning(consts, vm);
    assert(m2 == (Vm { slot: m1.filled(ev.rm, p.kscr), ..m1 }));
    lemma_filled(m1, ev.rm, p.kscr, packed_count(ev.ll, bytes));
    let p3 = p2.lane_mask(ev.ll);
    let m3 = p3.meaning(consts, vm);
    memory_results::lemma_lane_mask(p2, consts, vm, ev.ll);
    let k = p.lane_k(ev.ll);
    let after = brought(p, insn, ev, r, sss).meaning(consts, vm);
    let v = m3.taken(sss);
    assert(after == (Vm {
        z: m3.z.insert(r, meaning::merged(m3.z[r], v, k, m3.k[k], 0)),
        ..m3
    }));
    assert forall|i: int| 0 <= i < meaning::dwords_of(ev.ll) implies #[trigger] after.z[r][i]
        == source_converted(vm, insn, ev, sss)[i] by {
        memory_results::lemma_place(m3, k, meaning::dwords_of(ev.ll), i);
        assert(0 <= bytes * i / 4 < packed_count(ev.ll, bytes));
        assert(m3.slot[bytes * i / 4] == vm.z[ev.rm][bytes * i / 4]);
    }
}

/// A conversion of the source's elements, written as AVX-512 writes it.
proof fn lemma_brought(
    insn: Decoded,
    ev: Ev,
    scratch: i32,
    sss: u8,
    out: Ev,
    fin: Prog,
    vm: Vm,
)
    requires
        meaning::shaped(insn, ev),
        meaning::named(insn, ev.reg),
        out == (Ev { w: 0, ..ev }),
        3 <= sss <= 7,
        vm.wf(),
        at_source(vm, insn, ev, sss),
        ({
            let p = Prog::start(scratch, insn);
            let narrow = ev.aaa != 0 || ev.ll != 2;
            let r = p.result_reg(narrow, ev.reg);
            fin == brought(p.result_temp(narrow), insn, ev, r, sss).commit(ev.reg, r, out)
        }),
    ensures
        ({
            let after = fin.meaning(fin.consts, vm);
            &&& meaning::apart(vm, after, fin.temps, ev.reg, fin.kscr)
            &&& after.z[ev.reg] == meaning::written(
                out,
                vm.z[ev.reg],
                source_converted(vm, insn, ev, sss),
                vm.k[ev.aaa],
            )
        }),
{
    let consts = fin.consts;
    let p0 = Prog::start(scratch, insn);
    let narrow = ev.aaa != 0 || ev.ll != 2;
    let r = p0.result_reg(narrow, ev.reg);
    let p = p0.result_temp(narrow);
    let q = brought(p, insn, ev, r, sss);
    laws::law_scratch_mask(scratch, insn);
    meaning::lemma_begin(scratch, insn, ev);
    meaning::lemma_temp(p0, consts, vm);
    assert(p0.meaning(consts, vm) == vm);
    if MemOp::spec_of(insn) is Some {
        lemma_from_memory(p, consts, vm, insn, ev, r, sss);
    } else {
        lemma_from_register(p, consts, vm, insn, ev, r, sss);
    }
    let m = q.meaning(consts, vm);
    meaning::lemma_commit_takes(q, ev.reg, r, out);
    meaning::law_commit(q, consts, vm, ev.reg, r, out);
    let after = fin.meaning(consts, vm);
    let new = source_converted(vm, insn, ev, sss);
    assert(q.kscr == p0.kscr && q.temps == p.temps);
    if narrow {
        assert(fin.temps[0] == r);
        assert(m.z[ev.reg] == vm.z[ev.reg]);
    }
    let want = meaning::written(out, vm.z[ev.reg], new, vm.k[ev.aaa]);
    assert forall|i: int| 0 <= i < 16 implies #[trigger] after.z[ev.reg][i] == want[i] by {
        if i < meaning::dwords_of(ev.ll) {
            assert(m.z[r][i] == new[i]);
        }
    }
    assert(after.z[ev.reg] =~= want);
}

/// A widening move gives every lane its element of the source, zeros or the
/// sign above it, and writes the lanes as AVX-512 does. The source is a
/// register, or memory on a boundary of the elements.
pub proof fn law_widen(insn: Decoded, ev: Ev, scratch: i32, vm: Vm)
    requires
        meaning::shaped(insn, ev),
        meaning::named(insn, ev.reg),
        vm.wf(),
        at_source(vm, insn, ev, convert::widening(insn.head.mnemonic).0),
    ensures
        ({
            let p = convert::widen_outcome(insn, ev, scratch)->Thunk_0;
            let after = p.meaning(p.consts, vm);
            &&& convert::widen_outcome(insn, ev, scratch) is Thunk
            &&& meaning::apart(vm, after, p.temps, ev.reg, p.kscr)
            &&& after.z[ev.reg] == meaning::written(
                Ev { w: 0, ..ev },
                vm.z[ev.reg],
                source_converted(vm, insn, ev, convert::widening(insn.head.mnemonic).0),
                vm.k[ev.aaa],
            )
        }),
{
    let fin = convert::widen_outcome(insn, ev, scratch)->Thunk_0;
    lemma_brought(
        insn,
        ev,
        scratch,
        convert::widening(insn.head.mnemonic).0,
        Ev { w: 0, ..ev },
        fin,
        vm,
    );
}

/// vcvtph2ps gives every lane the float of its float16 of the source, and
/// writes the lanes as AVX-512 does. The source is a register, or memory on a
/// boundary of the float16s.
pub proof fn law_from_half(insn: Decoded, ev: Ev, scratch: i32, vm: Vm)
    requires
        meaning::shaped(insn, ev),
        meaning::named(insn, ev.reg),
        ev.w == 0,
        vm.wf(),
        at_source(vm, insn, ev, 3),
    ensures
        ({
            let p = convert::cvt_ph2ps_outcome(insn, ev, scratch)->Thunk_0;
            let after = p.meaning(p.consts, vm);
            &&& convert::cvt_ph2ps_outcome(insn, ev, scratch) is Thunk
            &&& meaning::apart(vm, after, p.temps, ev.reg, p.kscr)
            &&& after.z[ev.reg] == meaning::written(
                ev,
                vm.z[ev.reg],
                source_converted(vm, insn, ev, 3),
                vm.k[ev.aaa],
            )
        }),
{
    let fin = convert::cvt_ph2ps_outcome(insn, ev, scratch)->Thunk_0;
    lemma_brought(insn, ev, scratch, 3, ev, fin, vm);
}

/// An unmasked instruction of the card between registers leaves what it
/// computes in its destination, and changes nothing else.
proof fn lemma_unmasked(p: Prog, consts: Seq<Seq<u8>>, vm: Vm, m: Mvex, s: u8)
    requires
        p.meaning(consts, vm).wf(),
        m.rm == Rm::Reg(s),
        m.k == 0,
        m.sss == 0,
        !Vm::uses_mask(m),
    ensures
        ({
            let before = p.meaning(consts, vm);
            let after = p.step(Step::Mvex(m)).meaning(consts, vm);
            let d = Vm::dest(m);
            let v = before.computed(m, before.z[d], before.z[m.vvvv], before.z[s]);
            &&& meaning::put(before, after, d)
            &&& forall|i: int| 0 <= i < 16 ==> #[trigger] after.z[d][i] == v[i]
        }),
{
    broadcast use meaning::lemma_run;

}

/// The lanes of `d` from `n` on zeroed.
proof fn lemma_zeroed_above(p: Prog, consts: Seq<Seq<u8>>, vm: Vm, d: u8, mask: u16, n: int)
    requires
        p.meaning(consts, vm).wf(),
        p.kscr != 0,
        n < 16,
        forall|i: int| 0 <= i < 16 ==> #[trigger] meaning::bit(mask, i) == (i >= n),
    ensures
        ({
            let before = p.meaning(consts, vm);
            let after = p.zero_lanes(d, mask).meaning(consts, vm);
            &&& meaning::only(before, after, d, p.kscr)
            &&& forall|i: int|
                0 <= i < 16 ==> #[trigger] after.z[d][i] == if i < n {
                    before.z[d][i]
                } else {
                    0
                }
        }),
{
    assert(mask != 0) by {
        meaning::lemma_bits(0, 0, 15);
        assert(meaning::bit(mask, 15));
    }
    meaning::lemma_mask_imm(p, consts, vm, mask);
    meaning::lemma_zero(p.mask_imm(mask), consts, vm, d, p.kscr, 0);
    let before = p.meaning(consts, vm);
    let after = p.zero_lanes(d, mask).meaning(consts, vm);
    assert forall|i: int| 0 <= i < 16 implies #[trigger] after.z[d][i] == if i < n {
        before.z[d][i]
    } else {
        0
    } by {
        assert(meaning::bit(mask, i) == (i >= n));
    }
}

/// The lanes above half a vector of length `ll`.
proof fn lemma_above_half(ll: u8, i: int)
    requires
        ll <= 2,
        0 <= i < 16,
    ensures
        meaning::bit(convert::half_dwords(ll), i) == (2 * i < meaning::dwords_of(ll)),
        meaning::bit(!convert::half_dwords(ll), i) == (2 * i >= meaning::dwords_of(ll)),
        meaning::bit(0xfffc, i) == (i >= 2),
{
    meaning::lemma_lanes(i as u16);
    meaning::lemma_bits(convert::half_dwords(ll), 0, i as u16);
}

/// The instruction by which the card converts floats to integers, with the
/// rounding of the immediate.
pub open spec fn fixpoint(r: u8, s: u8, imm: u8) -> Mvex {
    Mvex {
        map: 3,
        pp: 1,
        w: 0,
        op: 0xCB,
        reg: r,
        vvvv: 0,
        rm: Rm::Reg(s),
        k: 0,
        sss: 0,
        imm: Some(imm),
    }
}

/// The integer a float becomes where the card's conversion gives `converted`:
/// the integer indefinite if the float is not below 2^31 or is no number.
pub open spec fn integer_of(x: u32, converted: u32) -> u32 {
    if meaning::fulfils(5, meaning::relation(0, x as int, convert::F32_TWO31 as int)) {
        convert::INDEFINITE
    } else {
        converted
    }
}

/// The lanes of `r` that belong to floats not below 2^31, or to no number,
/// become the integer indefinite; the others stay.
proof fn lemma_indefinite(p: Prog, consts: Seq<Seq<u8>>, vm: Vm, r: u8, s: u8)
    requires
        p.consts == Seq::<Seq<u8>>::empty(),
        consts == convert::indefinite_above(p, r, s, false).consts,
        p.meaning(consts, vm).wf(),
        p.kscr != 0,
    ensures
        ({
            let before = p.meaning(consts, vm);
            let q = convert::indefinite_above(p, r, s, false);
            let after = q.meaning(consts, vm);
            &&& q.temps == p.temps && q.kscr == p.kscr
            &&& meaning::only(before, after, r, p.kscr)
            &&& forall|i: int|
                0 <= i < 16 ==> #[trigger] after.z[r][i] == integer_of(
                    before.z[s][i],
                    before.z[r][i],
                )
        }),
{
    broadcast use meaning::lemma_run;

    let before = p.meaning(consts, vm);
    let big = prog::splat32(convert::F32_TWO31);
    let ind = prog::splat32(convert::INDEFINITE);
    let bigs = Seq::new(16, |i: int| convert::F32_TWO31);
    let inds = Seq::new(16, |i: int| convert::INDEFINITE);
    meaning::lemma_words(bigs);
    meaning::lemma_words(inds);
    let i0 = p.index_of(big);
    let p1 = p.constant(big);
    assert(i0 == 0 && p1.consts =~= seq![big]);
    let p2 = p1.step(Step::K).compare(p.kscr, s, Rm::Const(i0), 5, 0, 0);
    meaning::lemma_found(p2.consts, ind, 0);
    let i1 = p2.index_of(ind);
    assert(consts == p2.constant(ind).consts);
    assert(consts[0] == big && i1 < consts.len() && consts[i1 as int] == ind);
    let m2 = p2.meaning(consts, vm);
    let test = Mvex {
        map: 1,
        pp: 0,
        w: 0,
        op: 0xC2,
        reg: p.kscr,
        vvvv: s,
        rm: Rm::Const(i0),
        k: 0,
        sss: 0,
        imm: Some(5),
    };
    let m1 = p1.step(Step::K).meaning(consts, vm);
    assert(m1 == (Vm { gp: (None, before.gp.1), ..before }));
    assert(m1.operand(consts, Rm::Const(i0)) == Some(bigs));
    assert(m2 == m1.mvex(consts, test));
    assert(m2 == (Vm { k: m1.k.insert(p.kscr, m1.compared(test, m1.z[s], bigs)), ..m1 }));
    let q = convert::indefinite_above(p, r, s, false);
    let after = q.meaning(consts, vm);
    assert(after.z == m2.z.insert(
        r,
        meaning::merged(m2.z[r], inds, p.kscr, m2.k[p.kscr], 0),
    ));
    let f = |i: int| meaning::selects(m1, 0, i) && Vm::found(test, m1.z[s], bigs, i);
    assert forall|i: int| 0 <= i < 16 implies #[trigger] after.z[r][i] == integer_of(
        before.z[s][i],
        before.z[r][i],
    ) by {
        meaning::lemma_mask_where(f, 16, i);
        assert(m1.compared(test, m1.z[s], bigs) == meaning::mask_where(f, 16));
        assert(meaning::bit(m2.k[p.kscr], i) == f(i));
    }
}

/// vcvtps2dq and vcvttps2dq give every lane the integer indefinite where its
/// float is not below 2^31 or is no number, and else what the card's
/// conversion, whatever it computes, gives; they write the lanes as AVX-512
/// does.
pub proof fn law_to_integer(insn: Decoded, ev: Ev, scratch: i32, vm: Vm)
    requires
        meaning::between(insn, ev),
        meaning::named(insn, ev.reg),
        meaning::named(insn, ev.rm),
        vm.wf(),
    ensures
        ({
            let p = convert::cvt_to_int_outcome(insn, ev, scratch)->Thunk_0;
            let after = p.meaning(p.consts, vm);
            let r = Prog::start(scratch, insn).next_temp();
            let s = vm.z[ev.rm];
            let imm: u8 = if insn.head.mnemonic == mn::VCVTTPS2DQ {
                3
            } else {
                0
            };
            let card = vm.computed(fixpoint(r, ev.rm, imm), vm.z[r], vm.z[0], s);
            &&& convert::cvt_to_int_outcome(insn, ev, scratch) is Thunk
            &&& meaning::apart(vm, after, p.temps, ev.reg, p.kscr)
            &&& after.z[ev.reg] == meaning::written(
                ev,
                vm.z[ev.reg],
                Seq::new(16, |i: int| integer_of(s[i], card[i])),
                vm.k[ev.aaa],
            )
        }),
{
    let fin = convert::cvt_to_int_outcome(insn, ev, scratch)->Thunk_0;
    let consts = fin.consts;
    let p0 = Prog::start(scratch, insn);
    meaning::lemma_start(scratch, insn, ev);
    meaning::lemma_temp(p0, consts, vm);
    assert(p0.meaning(consts, vm) == vm);
    let r = p0.next_temp();
    let s = ev.rm;
    let imm: u8 = if insn.head.mnemonic == mn::VCVTTPS2DQ {
        3
    } else {
        0
    };
    let p1 = p0.temp();
    let p2 = p1.step(Step::Mvex(fixpoint(r, s, imm)));
    lemma_unmasked(p1, consts, vm, fixpoint(r, s, imm), s);
    let p3 = convert::indefinite_above(p2, r, s, false);
    assert(fin == p3.commit(ev.reg, r, ev));
    meaning::lemma_commit_takes(p3, ev.reg, r, ev);
    lemma_indefinite(p2, consts, vm, r, s);
    let m3 = p3.meaning(consts, vm);
    meaning::law_commit(p3, consts, vm, ev.reg, r, ev);
    let card = vm.computed(fixpoint(r, s, imm), vm.z[r], vm.z[0], vm.z[s]);
    assert(m3.z[r] =~= Seq::new(16, |i: int| integer_of(vm.z[s][i], card[i])));
    assert(fin.temps[0] == r);
}

/// The sixteen lanes of a result.
pub open spec fn lanes(v: Seq<u32>) -> Seq<u32> {
    Seq::new(16, |i: int| v[i])
}

/// The instruction by which the card rounds floats to whole numbers.
pub open spec fn rounding(w: u8, r: u8, s: u8, imm: u8) -> Mvex {
    Mvex { map: 3, w, op: 0x52, imm: Some(imm), ..fixpoint(r, s, imm) }
}

/// A packed rounding gives what the card's, by the same rounding mode and
/// whatever it computes, gives, and writes it as AVX-512 does.
pub proof fn law_round(insn: Decoded, ev: Ev, scratch: i32, vm: Vm)
    requires
        meaning::between(insn, ev),
        meaning::named(insn, ev.reg),
        insn.head.mnemonic != mn::VRNDSCALESS && insn.head.mnemonic != mn::VRNDSCALESD,
        vm.wf(),
        convert::rndscale_outcome(insn, ev, scratch) is Thunk,
    ensures
        ({
            let p = convert::rndscale_outcome(insn, ev, scratch)->Thunk_0;
            let after = p.meaning(p.consts, vm);
            let narrow = ev.aaa != 0 || ev.ll != 2;
            let r = Prog::start(scratch, insn).result_reg(narrow, ev.reg);
            let m = rounding(ev.w, r, ev.rm, insn.head.imm8 & 3);
            &&& meaning::apart(vm, after, p.temps, ev.reg, p.kscr)
            &&& after.z[ev.reg] == meaning::written(
                ev,
                vm.z[ev.reg],
                vm.computed(m, vm.z[r], vm.z[0], vm.z[ev.rm]),
                vm.k[ev.aaa],
            )
        }),
{
    let fin = convert::rndscale_outcome(insn, ev, scratch)->Thunk_0;
    let consts = fin.consts;
    let p0 = Prog::start(scratch, insn);
    meaning::lemma_start(scratch, insn, ev);
    meaning::lemma_temp(p0, consts, vm);
    assert(p0.meaning(consts, vm) == vm);
    let narrow = ev.aaa != 0 || ev.ll != 2;
    let r = p0.result_reg(narrow, ev.reg);
    let m = rounding(ev.w, r, ev.rm, insn.head.imm8 & 3);
    let p1 = p0.result_temp(narrow);
    let p2 = p1.step(Step::Mvex(m));
    lemma_unmasked(p1, consts, vm, m, ev.rm);
    assert(fin == p2.commit(ev.reg, r, ev));
    meaning::lemma_commit_takes(p2, ev.reg, r, ev);
    meaning::law_commit(p2, consts, vm, ev.reg, r, ev);
    let after = fin.meaning(consts, vm);
    let new = vm.computed(m, vm.z[r], vm.z[0], vm.z[ev.rm]);
    assert(after.z[ev.reg] =~= meaning::written(ev, vm.z[ev.reg], new, vm.k[ev.aaa]));
    if narrow {
        assert(fin.temps[0] == r);
    }
}

/// The instruction by which the card scales floats by powers of two.
pub open spec fn scaling(r: u8, a: u8, t: u8) -> Mvex {
    Mvex { map: 2, op: 0x84, vvvv: a, imm: None, ..fixpoint(r, t, 0) }
}

/// vscalefps gives what the card's scaling, whatever it computes, gives of the
/// first source and the second rounded down to integers, and writes it as
/// AVX-512 does.
pub proof fn law_scale(insn: Decoded, ev: Ev, scratch: i32, vm: Vm)
    requires
        meaning::between(insn, ev),
        meaning::named(insn, ev.reg),
        meaning::named(insn, ev.vvvv),
        vm.wf(),
    ensures
        ({
            let p = convert::scalef_outcome(insn, ev, scratch)->Thunk_0;
            let after = p.meaning(p.consts, vm);
            let p0 = Prog::start(scratch, insn);
            let (t, r) = (p0.next_temp(), p0.temp().next_temp());
            let n = lanes(vm.computed(fixpoint(t, ev.rm, 1), vm.z[t], vm.z[0], vm.z[ev.rm]));
            &&& convert::scalef_outcome(insn, ev, scratch) is Thunk
            &&& meaning::apart(vm, after, p.temps, ev.reg, p.kscr)
            &&& after.z[ev.reg] == meaning::written(
                ev,
                vm.z[ev.reg],
                vm.computed(scaling(r, ev.vvvv, t), vm.z[r], vm.z[ev.vvvv], n),
                vm.k[ev.aaa],
            )
        }),
{
    let fin = convert::scalef_outcome(insn, ev, scratch)->Thunk_0;
    let consts = fin.consts;
    let p0 = Prog::start(scratch, insn);
    meaning::lemma_start(scratch, insn, ev);
    meaning::lemma_temp(p0, consts, vm);
    meaning::lemma_temp(p0.temp(), consts, vm);
    assert(p0.meaning(consts, vm) == vm);
    let (t, r) = (p0.next_temp(), p0.temp().next_temp());
    let p1 = p0.temp().temp();
    let p2 = p1.step(Step::Mvex(fixpoint(t, ev.rm, 1)));
    lemma_unmasked(p1, consts, vm, fixpoint(t, ev.rm, 1), ev.rm);
    let n = lanes(vm.computed(fixpoint(t, ev.rm, 1), vm.z[t], vm.z[0], vm.z[ev.rm]));
    let m2 = p2.meaning(consts, vm);
    assert(m2.z[t] =~= n);
    let p3 = p2.step(Step::Mvex(scaling(r, ev.vvvv, t)));
    lemma_unmasked(p2, consts, vm, scaling(r, ev.vvvv, t), t);
    assert(fin == p3.commit(ev.reg, r, ev));
    meaning::lemma_commit_takes(p3, ev.reg, r, ev);
    meaning::law_commit(p3, consts, vm, ev.reg, r, ev);
    let after = fin.meaning(consts, vm);
    let new = vm.computed(scaling(r, ev.vvvv, t), vm.z[r], vm.z[ev.vvvv], n);
    assert(after.z[ev.reg] =~= meaning::written(ev, vm.z[ev.reg], new, vm.k[ev.aaa]));
    assert(fin.temps[0] == t && fin.temps[1] == r);
}

/// The instruction by which the card makes floats of doubles.
pub open spec fn shortening(r: u8, s: u8) -> Mvex {
    Mvex { map: 1, w: 1, op: 0x5A, imm: None, ..fixpoint(r, s, 0) }
}

/// Half the lanes of a vector of length `ll`, and zeros above them.
pub open spec fn low_half(v: Seq<u32>, ll: u8) -> Seq<u32> {
    Seq::new(
        16,
        |i: int|
            if 2 * i < meaning::dwords_of(ll) {
                v[i]
            } else {
                0
            },
    )
}

/// vcvtpd2ps writes the floats that the card's conversion, whatever it
/// computes, makes of the doubles as AVX-512 does, and leaves zeros above the
/// low half.
pub proof fn law_shorten(insn: Decoded, ev: Ev, scratch: i32, vm: Vm)
    requires
        meaning::between(insn, ev),
        meaning::named(insn, ev.reg),
        vm.wf(),
    ensures
        ({
            let p = convert::cvt_pd2ps_outcome(insn, ev, scratch)->Thunk_0;
            let after = p.meaning(p.consts, vm);
            let r = Prog::start(scratch, insn).result_reg(ev.aaa != 0, ev.reg);
            let card = vm.computed(shortening(r, ev.rm), vm.z[r], vm.z[0], vm.z[ev.rm]);
            let out = Ev { ll: if ev.ll == 2 { 1 } else { 0 }, w: 0, ..ev };
            &&& convert::cvt_pd2ps_outcome(insn, ev, scratch) is Thunk
            &&& meaning::apart(vm, after, p.temps, ev.reg, p.kscr)
            &&& after.z[ev.reg] == low_half(
                meaning::written(out, vm.z[ev.reg], card, vm.k[ev.aaa]),
                ev.ll,
            )
        }),
{
    let fin = convert::cvt_pd2ps_outcome(insn, ev, scratch)->Thunk_0;
    let consts = fin.consts;
    let p0 = Prog::start(scratch, insn);
    meaning::lemma_start(scratch, insn, ev);
    meaning::lemma_temp(p0, consts, vm);
    assert(p0.meaning(consts, vm) == vm);
    let masked = ev.aaa != 0;
    let r = p0.result_reg(masked, ev.reg);
    let p1 = p0.result_temp(masked);
    let p2 = p1.step(Step::Mvex(shortening(r, ev.rm)));
    lemma_unmasked(p1, consts, vm, shortening(r, ev.rm), ev.rm);
    let m2 = p2.meaning(consts, vm);
    let mask = !convert::half_dwords(ev.ll);
    let half = meaning::dwords_of(ev.ll) / 2;
    let p3 = if ev.ll != 2 {
        p2.zero_lanes(r, mask)
    } else {
        p2
    };
    assert forall|i: int| 0 <= i < 16 implies #[trigger] meaning::bit(mask, i) == (i >= half) by {
        lemma_above_half(ev.ll, i);
    }
    if ev.ll != 2 {
        lemma_zeroed_above(p2, consts, vm, r, mask, half);
    }
    let m3 = p3.meaning(consts, vm);
    let card = vm.computed(shortening(r, ev.rm), vm.z[r], vm.z[0], vm.z[ev.rm]);
    let out = Ev { ll: if ev.ll == 2 { 1 } else { 0 }, w: 0, ..ev };
    let p4 = p3.commit(ev.reg, r, out);
    assert(p3.kscr == p0.kscr && p3.temps == p1.temps);
    meaning::lemma_commit_takes(p3, ev.reg, r, out);
    meaning::law_commit(p3, consts, vm, ev.reg, r, out);
    let m4 = p4.meaning(consts, vm);
    let want = low_half(meaning::written(out, vm.z[ev.reg], card, vm.k[ev.aaa]), ev.ll);
    if masked && ev.ll == 0 {
        assert forall|i: int| 0 <= i < 16 implies #[trigger] meaning::bit(0xfffc, i) == (i >= 2) by {
            lemma_above_half(0, i);
        }
        lemma_zeroed_above(p4, consts, vm, ev.reg, 0xfffc, 2);
    }
    let after = fin.meaning(consts, vm);
    assert forall|i: int| 0 <= i < 16 implies #[trigger] after.z[ev.reg][i] == want[i] by {
        assert(i < half ==> m3.z[r][i] == card[i]);
        assert(m4.z[ev.reg][i] == meaning::written(out, vm.z[ev.reg], m3.z[r], vm.k[ev.aaa])[i]);
    }
    assert(after.z[ev.reg] =~= want);
    if masked {
        assert(fin.temps[0] == r);
    }
}

/// The float16s of a vector's lanes, two to a dword, and zeros above them.
pub open spec fn as_halves(vm: Vm, z: Seq<u32>, ll: u8) -> Seq<u32> {
    Seq::new(
        16,
        |j: int|
            if 2 * j < meaning::dwords_of(ll) {
                ((vm.rounded)(z[2 * j]) + (vm.rounded)(z[2 * j + 1]) * 0x1_0000) as u32
            } else {
                0
            },
    )
}

proof fn lemma_to_half(insn: Decoded, ev: Ev, scratch: i32, vm: Vm)
    requires
        meaning::between(insn, ev),
        ev.aaa == 0,
        vm.wf(),
        convert::cvt_ps2ph_outcome(insn, ev, scratch) is Thunk,
    ensures
        ({
            let p = convert::cvt_ps2ph_outcome(insn, ev, scratch)->Thunk_0;
            let after = p.meaning(p.consts, vm);
            &&& meaning::apart(vm, after, p.temps, ev.rm, p.kscr)
            &&& after.z[ev.rm] == as_halves(vm, vm.z[ev.reg], ev.ll)
        }),
{
    broadcast use meaning::lemma_run;

    reveal(Vm::transfer);
    let fin = convert::cvt_ps2ph_outcome(insn, ev, scratch)->Thunk_0;
    let consts = fin.consts;
    let d = ev.rm;
    let p0 = Prog::start(scratch, insn);
    meaning::lemma_start(scratch, insn, ev);
    assert(p0.meaning(consts, vm) == vm);
    let k = p0.lane_k(ev.ll);
    let p1 = p0.lane_mask(ev.ll);
    let m1 = p1.meaning(consts, vm);
    memory_results::lemma_lane_mask(p0, consts, vm, ev.ll);
    let p2 = p1.mvex(1, 0, 0, 0x29, ev.reg, 0, Rm::Fs(S_XFER), k, 3, None);
    let m2 = p2.meaning(consts, vm);
    assert(m2 == (Vm { slot: m1.narrowed(ev.reg, k), ..m1 }));
    let mask = convert::half_dwords(ev.ll);
    let p3 = p2.mask_imm(mask);
    let m3 = p3.meaning(consts, vm);
    meaning::lemma_mask_imm(p2, consts, vm, mask);
    let p4 = p3.vmov(d, Rm::Fs(S_XFER), p0.kscr, 0);
    let m4 = p4.meaning(consts, vm);
    assert(m4 == (Vm {
        z: m3.z.insert(d, meaning::merged(m3.z[d], m3.taken(0), p0.kscr, m3.k[p0.kscr], 0)),
        ..m3
    }));
    assert(fin == p4.zero_lanes(d, !mask));
    let half = meaning::dwords_of(ev.ll) / 2;
    assert forall|i: int| 0 <= i < 16 implies #[trigger] meaning::bit(!mask, i) == (i >= half) by {
        lemma_above_half(ev.ll, i);
    }
    lemma_zeroed_above(p4, consts, vm, d, !mask, half);
    let after = fin.meaning(consts, vm);
    let want = as_halves(vm, vm.z[ev.reg], ev.ll);
    assert forall|j: int| 0 <= j < 16 implies #[trigger] after.z[d][j] == want[j] by {
        if j < half {
            lemma_above_half(ev.ll, j);
            memory_results::lemma_place(m1, k, meaning::dwords_of(ev.ll), 2 * j);
            memory_results::lemma_place(m1, k, meaning::dwords_of(ev.ll), 2 * j + 1);
            assert(m2.slot[j] == want[j]);
            assert((4 * j) / 4 == j);
            assert(after.z[d][j] == m4.z[d][j]);
        }
    }
    assert(after.z[d] =~= want);
}

/// An unmasked vcvtps2ph into a register leaves the float16s of the lanes
/// there, and zeros above them; a masked one is refused.
pub proof fn law_to_half(insn: Decoded, ev: Ev, scratch: i32, vm: Vm)
    requires
        meaning::between(insn, ev),
        vm.wf(),
    ensures
        ev.aaa != 0 ==> convert::cvt_ps2ph_outcome(insn, ev, scratch) is Refused,
        convert::cvt_ps2ph_outcome(insn, ev, scratch) is Thunk ==> ({
            let p = convert::cvt_ps2ph_outcome(insn, ev, scratch)->Thunk_0;
            let after = p.meaning(p.consts, vm);
            &&& meaning::apart(vm, after, p.temps, ev.rm, p.kscr)
            &&& after.z[ev.rm] == as_halves(vm, vm.z[ev.reg], ev.ll)
        }),
{
    if ev.aaa == 0 && convert::cvt_ps2ph_outcome(insn, ev, scratch) is Thunk {
        lemma_to_half(insn, ev, scratch, vm);
    }
}

} // verus!
