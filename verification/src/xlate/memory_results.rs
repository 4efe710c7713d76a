//! What the rewritten unaligned moves do to memory and read from it, and what
//! a memory operand comes to, in the model of [`crate::xlate::meaning`].
use crate::xlate::arith;
use crate::xlate::code::{MemOp, Rm, S_GPR};
use crate::xlate::ev;
use crate::xlate::ev::Ev;
use crate::xlate::insn;
use crate::xlate::insn::Decoded;
use crate::xlate::laws;
use crate::xlate::meaning;
use crate::xlate::meaning::Vm;
use crate::xlate::mnemonic as mn;
use crate::xlate::prog::Prog;
use crate::xlate::results;
use crate::xlate::shuffle;
use crate::xlate::table;
use crate::xlate::table::Canon;
use vstd::prelude::*;

verus! {

/// Whether the operand is one the unaligned pairs can address in `vm`: on a
/// dword boundary, the address of its second line 64 bytes after the first.
pub open spec fn readable(vm: Vm, m: MemOp) -> bool {
    &&& (vm.addr)(m) % 4 == 0
    &&& (vm.addr)(m.spec_plus(64)) == (vm.addr)(m) + 64
}

/// The sixteen dwords from the operand on.
pub open spec fn dwords_at(vm: Vm, m: MemOp) -> Seq<u32> {
    Seq::new(16, |i: int| (vm.mem)((vm.addr)(m) + 4 * i))
}

/// Whether the mask register `k` selects the first `n` lanes; k0 stands for
/// all sixteen.
pub open spec fn selects_first(vm: Vm, k: u8, n: int) -> bool {
    if k == 0 {
        n == 16
    } else {
        0 <= n <= 16 && forall|i: int| 0 <= i < 16 ==> #[trigger] meaning::bit(vm.k[k], i) == (i < n)
    }
}

proof fn lemma_rank(m: u16, n: int, i: int)
    requires
        0 <= i <= n <= 16,
        forall|j: int| 0 <= j < 16 ==> #[trigger] meaning::bit(m, j) == (j < n),
    ensures
        meaning::rank(m, i) == i,
    decreases i,
{
    if i > 0 {
        lemma_rank(m, n, i - 1);
        assert(meaning::bit(m, i - 1));
    }
}

/// The first lanes selected stand for the first dwords.
pub proof fn lemma_place(vm: Vm, k: u8, n: int, i: int)
    requires
        selects_first(vm, k, n),
        0 <= i < n,
    ensures
        vm.place(k, i) == i,
        meaning::selects(vm, k, i),
{
    if k != 0 {
        lemma_rank(vm.k[k], n, i);
        assert(meaning::bit(vm.k[k], i));
    }
}

/// The unaligned load pair reads the dwords of the first lanes.
pub proof fn lemma_load_pair(
    p: Prog,
    consts: Seq<Seq<u8>>,
    vm: Vm,
    d: u8,
    m: MemOp,
    k: u8,
    n: int,
)
    requires
        readable(p.meaning(consts, vm), m),
        selects_first(p.meaning(consts, vm), k, n),
    ensures
        ({
            let before = p.meaning(consts, vm);
            let after = p.load_unaligned(d, m, k, false, 0).meaning(consts, vm);
            &&& meaning::fetched(before, after, d)
            &&& forall|i: int|
                0 <= i < 16 ==> #[trigger] after.z[d][i] == (if i < n {
                    dwords_at(before, m)[i]
                } else {
                    before.z[d][i]
                })
        }),
{
    broadcast use meaning::lemma_run;

    let before = p.meaning(consts, vm);
    let a = (before.addr)(m);
    let p1 = p.mvex(2, 0, 0, 0xD0, d, 0, Rm::Mem(m), k, 0, None);
    let m1 = p1.meaning(consts, vm);
    let r0 = before.recovered(m);
    assert(m1 == (Vm { z: before.z.insert(d, r0.unpacked(true, d, k, a)), ..r0 }));
    let after = p.load_unaligned(d, m, k, false, 0).meaning(consts, vm);
    let r1 = m1.recovered(m.spec_plus(64));
    assert(after == (Vm { z: m1.z.insert(d, r1.unpacked(false, d, k, a)), ..r1 }));
    assert(after.z =~= before.z.insert(d, after.z[d]));
    assert forall|i: int| 0 <= i < 16 implies #[trigger] after.z[d][i] == (if i < n {
        dwords_at(before, m)[i]
    } else {
        before.z[d][i]
    }) by {
        if i < n {
            lemma_place(r0, k, n, i);
            lemma_place(r1, k, n, i);
        } else {
            assert(k != 0 && !meaning::bit(before.k[k], i));
        }
    }
}

/// The unaligned store pair writes the first lanes, and nothing else of
/// memory.
pub proof fn lemma_store_pair(
    p: Prog,
    consts: Seq<Seq<u8>>,
    vm: Vm,
    s: u8,
    m: MemOp,
    k: u8,
    n: int,
)
    requires
        readable(p.meaning(consts, vm), m),
        selects_first(p.meaning(consts, vm), k, n),
    ensures
        ({
            let before = p.meaning(consts, vm);
            let after = p.store_unaligned(m, s, k, false, 0).meaning(consts, vm);
            &&& after == (Vm { mem: after.mem, gp: after.gp, ..before })
            &&& forall|y: int| #[trigger] (after.mem)(y) == stored(before, before.z[s], m, n, y)
        }),
{
    broadcast use meaning::lemma_run;

    let before = p.meaning(consts, vm);
    let a = (before.addr)(m);
    let p1 = p.mvex(2, 1, 0, 0xD0, s, 0, Rm::Mem(m), k, 0, None);
    let m1 = p1.meaning(consts, vm);
    let r0 = before.recovered(m);
    assert(m1 == (Vm { mem: r0.packed(true, s, k, a), ..r0 }));
    let after = p.store_unaligned(m, s, k, false, 0).meaning(consts, vm);
    let r1 = m1.recovered(m.spec_plus(64));
    assert(after == (Vm { mem: r1.packed(false, s, k, a), ..r1 }));
    assert forall|y: int| #[trigger] (after.mem)(y) == stored(before, before.z[s], m, n, y) by {
        lemma_packed(r0, true, s, k, a, n, y);
        lemma_packed(r1, false, s, k, a, n, y);
    }
}

/// What stands at `y` once the first `n` lanes of `z` are stored at `m`.
pub open spec fn stored(vm: Vm, z: Seq<u32>, m: MemOp, n: int, y: int) -> u32 {
    let a = (vm.addr)(m);
    if a <= y < a + 4 * n && (y - a) % 4 == 0 {
        z[(y - a) / 4]
    } else {
        (vm.mem)(y)
    }
}

/// What half of an unaligned store of the first lanes leaves at `y`.
pub proof fn lemma_packed(vm: Vm, low: bool, s: u8, k: u8, a: int, n: int, y: int)
    requires
        selects_first(vm, k, n),
    ensures
        (vm.packed(low, s, k, a))(y) == (if a <= y < a + 4 * n && (y - a) % 4 == 0 && Vm::in_half(
            low,
            a,
            y,
        ) {
            vm.z[s][(y - a) / 4]
        } else {
            (vm.mem)(y)
        }),
{
    assert forall|i: int| #[trigger] vm.packs(low, k, a, i, y) implies i < n && i == (y - a) / 4 by {
        if i >= n {
            assert(k != 0 && !meaning::bit(vm.k[k], i));
        }
        lemma_place(vm, k, n, i);
    }
    if a <= y < a + 4 * n && (y - a) % 4 == 0 && Vm::in_half(low, a, y) {
        let i = (y - a) / 4;
        lemma_place(vm, k, n, i);
        assert(vm.packs(low, k, a, i, y));
    }
}

/// An unaligned move between memory and a register, of a length there is,
/// under a mask that moves of its elements can have.
pub open spec fn moves(insn: Decoded, ev: Ev, m: MemOp) -> bool {
    &&& MemOp::spec_of(insn) == Some(m)
    &&& meaning::shaped(insn, ev)
    &&& arith::byte_wise(insn.head.mnemonic) ==> ev.aaa == 0
}

/// The prefix fields of an unaligned move, its elements those that are moved.
pub open spec fn moved(insn: Decoded, ev: Ev) -> Ev {
    Ev {
        w: if arith::byte_wise(insn.head.mnemonic) {
            0
        } else {
            ev.w
        },
        ..ev
    }
}

/// The mask of a vector length changes nothing but the scratch mask, and
/// selects the lanes of the length.
pub proof fn lemma_lane_mask(p: Prog, consts: Seq<Seq<u8>>, vm: Vm, ll: u8)
    requires
        ll <= 2,
        p.kscr != 0,
    ensures
        ({
            let before = p.meaning(consts, vm);
            let q = p.lane_mask(ll);
            let after = q.meaning(consts, vm);
            &&& after == (Vm { k: after.k, gp: after.gp, ..before })
            &&& forall|k: u8| k != p.kscr ==> #[trigger] after.k[k] == before.k[k]
            &&& selects_first(after, p.lane_k(ll), meaning::dwords_of(ll))
            &&& q.kscr == p.kscr && q.temps == p.temps && q.consts == p.consts
        }),
{
    let after = p.lane_mask(ll).meaning(consts, vm);
    if ll != 2 {
        meaning::lemma_mask_imm(p, consts, vm, ev::vl_lanes(ll, 0));
        assert forall|i: int| 0 <= i < 16 implies #[trigger] meaning::bit(after.k[p.kscr], i) == (i
            < meaning::dwords_of(ll)) by {
            meaning::lemma_lanes(i as u16);
        }
    }
}

/// An unmasked unaligned load goes into its register, and zeroes the lanes
/// above its length.
proof fn lemma_plain_load(
    insn: Decoded,
    bytes: Seq<u8>,
    ev: Ev,
    scratch: i32,
    m: MemOp,
    vm: Vm,
)
    requires
        moves(insn, ev, m),
        ev.aaa == 0,
        insn.kind(0) == insn::KIND_REGISTER,
        vm.wf(),
        readable(vm, m),
    ensures
        ({
            let p = arith::unaligned_move_outcome(insn, bytes, ev, scratch)->Thunk_0;
            let after = p.meaning(p.consts, vm);
            &&& arith::unaligned_move_outcome(insn, bytes, ev, scratch) is Thunk
            &&& meaning::apart(vm, after, p.temps, ev.reg, p.kscr)
            &&& after.z[ev.reg] == meaning::written(
                moved(insn, ev),
                vm.z[ev.reg],
                dwords_at(vm, m),
                vm.k[ev.aaa],
            )
        }),
{
    let fin = arith::unaligned_move_outcome(insn, bytes, ev, scratch)->Thunk_0;
    let consts = fin.consts;
    let d = ev.reg;
    let p0 = Prog::start(scratch, insn);
    laws::law_scratch_mask(scratch, insn);
    assert(p0.meaning(consts, vm) == vm);
    let k = p0.lane_k(ev.ll);
    let p1 = p0.lane_mask(ev.ll);
    lemma_lane_mask(p0, consts, vm, ev.ll);
    let n = meaning::dwords_of(ev.ll);
    lemma_load_pair(p1, consts, vm, d, m, k, n);
    let p2 = p1.load_unaligned(d, m, k, false, 0);
    let m2 = p2.meaning(consts, vm);
    let after = fin.meaning(consts, vm);
    let new = meaning::written(moved(insn, ev), vm.z[d], dwords_at(vm, m), vm.k[ev.aaa]);
    if ev.ll != 2 {
        let u = ev::upper(ev.ll);
        meaning::lemma_mask_imm(p2, consts, vm, u);
        meaning::lemma_zero(p2.mask_imm(u), consts, vm, d, p0.kscr, 0);
        assert(fin == p2.mask_imm(u).zero(d, p0.kscr, 0));
        assert forall|i: int| 0 <= i < 16 implies #[trigger] after.z[d][i] == new[i] by {
            meaning::lemma_lanes(i as u16);
        }
    } else {
        assert(fin == p2);
        assert forall|i: int| 0 <= i < 16 implies #[trigger] after.z[d][i] == new[i] by {
            assert(m2.z[d][i] == dwords_at(vm, m)[i]);
        }
    }
    assert(after.z[d] =~= new);
}

/// An unaligned load reads the dwords at its operand, at any dword boundary,
/// and writes its register as AVX-512 does: the lanes its mask selects, and
/// zeros above its length.
pub proof fn law_unaligned_load(
    insn: Decoded,
    bytes: Seq<u8>,
    ev: Ev,
    scratch: i32,
    m: MemOp,
    vm: Vm,
)
    requires
        moves(insn, ev, m),
        meaning::named(insn, ev.reg),
        insn.kind(0) == insn::KIND_REGISTER,
        vm.wf(),
        readable(vm, m),
    ensures
        ({
            let p = arith::unaligned_move_outcome(insn, bytes, ev, scratch)->Thunk_0;
            let after = p.meaning(p.consts, vm);
            &&& arith::unaligned_move_outcome(insn, bytes, ev, scratch) is Thunk
            &&& meaning::apart(vm, after, p.temps, ev.reg, p.kscr)
            &&& after.z[ev.reg] == meaning::written(
                moved(insn, ev),
                vm.z[ev.reg],
                dwords_at(vm, m),
                vm.k[ev.aaa],
            )
        }),
{
    if ev.aaa == 0 {
        lemma_plain_load(insn, bytes, ev, scratch, m, vm);
    } else {
        let fin = arith::unaligned_move_outcome(insn, bytes, ev, scratch)->Thunk_0;
        let consts = fin.consts;
        let d = ev.reg;
        let p0 = Prog::start(scratch, insn);
        meaning::lemma_begin(scratch, insn, ev);
        meaning::lemma_temp(p0, consts, vm);
        assert(p0.meaning(consts, vm) == vm);
        let t = p0.next_temp();
        let k = p0.lane_k(ev.ll);
        let p1 = p0.temp().lane_mask(ev.ll);
        lemma_lane_mask(p0.temp(), consts, vm, ev.ll);
        let n = meaning::dwords_of(ev.ll);
        lemma_load_pair(p1, consts, vm, t, m, k, n);
        let p2 = p1.load_unaligned(t, m, k, false, 0);
        let m2 = p2.meaning(consts, vm);
        let ev2 = moved(insn, ev);
        assert(fin == p2.commit(d, t, ev2));
        meaning::lemma_commit_takes(p2, d, t, ev2);
        meaning::law_commit(p2, consts, vm, d, t, ev2);
        let after = fin.meaning(consts, vm);
        let new = meaning::written(ev2, vm.z[d], dwords_at(vm, m), vm.k[ev.aaa]);
        assert forall|i: int| 0 <= i < 16 implies #[trigger] after.z[d][i] == new[i] by {
            if i < n {
                assert(m2.z[t][i] == dwords_at(vm, m)[i]);
            }
        }
        assert(after.z[d] =~= new);
        assert(fin.temps[0] == t);
    }
}

/// An unaligned store writes the lanes of its length at its operand, at any
/// dword boundary, and nothing else of memory; under a mask it is refused.
pub proof fn law_unaligned_store(
    insn: Decoded,
    bytes: Seq<u8>,
    ev: Ev,
    scratch: i32,
    m: MemOp,
    vm: Vm,
)
    requires
        moves(insn, ev, m),
        insn.kind(0) != insn::KIND_REGISTER,
        vm.wf(),
        readable(vm, m),
    ensures
        ({
            let p = arith::unaligned_move_outcome(insn, bytes, ev, scratch)->Thunk_0;
            let after = p.meaning(p.consts, vm);
            if ev.aaa != 0 {
                arith::unaligned_move_outcome(insn, bytes, ev, scratch) is Refused
            } else {
                &&& arith::unaligned_move_outcome(insn, bytes, ev, scratch) is Thunk
                &&& after.wf()
                &&& after.z == vm.z && after.addr == vm.addr
                &&& forall|k: u8| k != p.kscr ==> #[trigger] after.k[k] == vm.k[k]
                &&& forall|y: int| #[trigger]
                    (after.mem)(y) == stored(vm, vm.z[ev.reg], m, meaning::dwords_of(ev.ll), y)
            }
        }),
{
    let fin = arith::unaligned_move_outcome(insn, bytes, ev, scratch)->Thunk_0;
    let consts = fin.consts;
    let p0 = Prog::start(scratch, insn);
    laws::law_scratch_mask(scratch, insn);
    assert(p0.meaning(consts, vm) == vm);
    if ev.aaa == 0 {
        let k = p0.lane_k(ev.ll);
        let p1 = p0.lane_mask(ev.ll);
        lemma_lane_mask(p0, consts, vm, ev.ll);
        lemma_store_pair(p1, consts, vm, ev.reg, m, k, meaning::dwords_of(ev.ll));
        assert(fin == p1.store_unaligned(m, ev.reg, k, false, 0));
    }
}

/// A store of the table that is not kept in place writes the lanes of its
/// length at its operand, and nothing else of memory; under a mask it is
/// refused.
pub proof fn law_table_store(insn: Decoded, ev: Ev, c: Canon, scratch: i32, m: MemOp, vm: Vm)
    requires
        meaning::shaped(insn, ev),
        table::is_store(ev),
        MemOp::spec_of(insn) == Some(m),
        vm.wf(),
        readable(vm, m),
    ensures
        ({
            let p = table::generic_outcome(insn, ev, c, scratch)->Thunk_0;
            let after = p.meaning(p.consts, vm);
            if ev.aaa != 0 {
                table::generic_outcome(insn, ev, c, scratch) is Refused
            } else {
                &&& table::generic_outcome(insn, ev, c, scratch) is Thunk
                &&& after.wf()
                &&& after.z == vm.z && after.addr == vm.addr
                &&& forall|k: u8| k != p.kscr ==> #[trigger] after.k[k] == vm.k[k]
                &&& forall|y: int| #[trigger]
                    (after.mem)(y) == stored(vm, vm.z[ev.reg], m, meaning::dwords_of(ev.ll), y)
            }
        }),
{
    let fin = table::generic_outcome(insn, ev, c, scratch)->Thunk_0;
    let consts = fin.consts;
    let p0 = Prog::start(scratch, insn);
    laws::law_scratch_mask(scratch, insn);
    assert(p0.meaning(consts, vm) == vm);
    if ev.aaa == 0 {
        let k = p0.lane_k(ev.ll);
        let p1 = p0.lane_mask(ev.ll);
        lemma_lane_mask(p0, consts, vm, ev.ll);
        lemma_store_pair(p1, consts, vm, ev.reg, m, k, meaning::dwords_of(ev.ll));
        assert(fin == p1.store_unaligned(m, ev.reg, k, false, 0));
    }
}

/// An extract to memory writes the block or half that the immediate names at
/// its operand, at any dword boundary, and nothing else of memory; under a mask
/// it is refused.
pub proof fn law_extract_store(insn: Decoded, ev: Ev, scratch: i32, m: MemOp, vm: Vm)
    requires
        meaning::shaped(insn, ev),
        MemOp::spec_of(insn) == Some(m),
        meaning::named(insn, ev.reg),
        vm.wf(),
        readable(vm, m),
    ensures
        ({
            let half = shuffle::extracts_half(insn.head.mnemonic);
            let p = shuffle::extract_outcome(insn, ev, scratch)->Thunk_0;
            let after = p.meaning(p.consts, vm);
            let n: int = if half { 8 } else { 4 };
            if ev.aaa != 0 {
                shuffle::extract_outcome(insn, ev, scratch) is Refused
            } else {
                &&& shuffle::extract_outcome(insn, ev, scratch) is Thunk
                &&& after.wf()
                &&& forall|r: u8| !p.temps.contains(r) ==> #[trigger] after.z[r] == vm.z[r]
                &&& forall|k: u8| k != p.kscr ==> #[trigger] after.k[k] == vm.k[k]
                &&& forall|y: int| #[trigger]
                    (after.mem)(y) == stored(
                        vm,
                        vm.z[ev.reg].skip(results::place(half, ev.ll, insn.head.imm8)),
                        m,
                        n,
                        y,
                    )
            }
        }),
{
    if ev.aaa == 0 {
        let half = shuffle::extracts_half(insn.head.mnemonic);
        let imm = insn.head.imm8;
        let perm = shuffle::extract_perm(half, ev.ll, imm);
        let lanes: u16 = if half {
            0x00ff
        } else {
            0x000f
        };
        let n: int = if half { 8 } else { 4 };
        let fin = shuffle::extract_outcome(insn, ev, scratch)->Thunk_0;
        let consts = fin.consts;
        let p0 = Prog::start(scratch, insn);
        meaning::lemma_begin(scratch, insn, ev);
        assert(p0.meaning(consts, vm) == vm);
        let t = p0.next_temp();
        let p1 = p0.temp();
        meaning::lemma_temp(p0, consts, vm);
        let p2 = p1.brought_down(t, ev.reg, perm);
        match perm {
            Some(q) => meaning::lemma_vpermf32x4(p1, consts, vm, t, ev.reg, q, 0),
            None => meaning::lemma_vmov(p1, consts, vm, t, Rm::Reg(ev.reg), 0),
        }
        let m2 = p2.meaning(consts, vm);
        let new = vm.z[ev.reg].skip(results::place(half, ev.ll, imm));
        results::lemma_place(ev.ll, imm, 0);
        assert forall|i: int| 0 <= i < n implies #[trigger] m2.z[t][i] == new[i] by {
            meaning::lemma_fields((i / 4) as u8, 0);
        }
        meaning::lemma_mask_imm(p2, consts, vm, lanes);
        let p3 = p2.mask_imm(lanes);
        let m3 = p3.meaning(consts, vm);
        assert forall|i: int| 0 <= i < 16 implies #[trigger] meaning::bit(m3.k[p0.kscr], i) == (i
            < n) by {
            meaning::lemma_lanes(i as u16);
        }
        lemma_store_pair(p3, consts, vm, t, m, p0.kscr, n);
        assert(fin == p3.store_unaligned(m, t, p0.kscr, false, 0));
        assert(fin.temps[0] == t);
        let after = fin.meaning(consts, vm);
        assert forall|y: int| #[trigger] (after.mem)(y) == stored(vm, new, m, n, y) by {
            let a = (vm.addr)(m);
            if a <= y < a + 4 * n && (y - a) % 4 == 0 {
                assert(m2.z[t][(y - a) / 4] == new[(y - a) / 4]);
            }
        }
    }
}

/// An unmasked load gives back what a store of the same length put there.
pub proof fn law_load_gives_back_a_store(
    store: (Decoded, Seq<u8>, Ev),
    load: (Decoded, Seq<u8>, Ev),
    scratch: i32,
    m: MemOp,
    vm: Vm,
)
    requires
        moves(store.0, store.2, m),
        moves(load.0, load.2, m),
        store.0.kind(0) != insn::KIND_REGISTER,
        load.0.kind(0) == insn::KIND_REGISTER,
        store.2.ll == load.2.ll,
        store.2.aaa == 0,
        load.2.aaa == 0,
        meaning::named(load.0, load.2.reg),
        vm.wf(),
        readable(vm, m),
    ensures
        ({
            let p = arith::unaligned_move_outcome(store.0, store.1, store.2, scratch)->Thunk_0;
            let q = arith::unaligned_move_outcome(load.0, load.1, load.2, scratch)->Thunk_0;
            let after = q.meaning(q.consts, p.meaning(p.consts, vm));
            forall|i: int|
                0 <= i < 16 ==> #[trigger] after.z[load.2.reg][i] == (if i < meaning::dwords_of(
                    load.2.ll,
                ) {
                    vm.z[store.2.reg][i]
                } else {
                    0
                })
        }),
{
    let p = arith::unaligned_move_outcome(store.0, store.1, store.2, scratch)->Thunk_0;
    let mid = p.meaning(p.consts, vm);
    law_unaligned_store(store.0, store.1, store.2, scratch, m, vm);
    law_unaligned_load(load.0, load.1, load.2, scratch, m, mid);
    let a = (vm.addr)(m);
    assert forall|i: int| 0 <= i < meaning::dwords_of(load.2.ll) implies #[trigger] dwords_at(
        mid,
        m,
    )[i] == vm.z[store.2.reg][i] by {
        let y = a + 4 * i;
        assert((mid.mem)(y) == stored(vm, vm.z[store.2.reg], m, meaning::dwords_of(load.2.ll), y));
        assert((y - a) % 4 == 0 && (y - a) / 4 == i);
    }
}

/// An element of memory broadcast under a mask.
pub proof fn lemma_broadcast_load(
    p: Prog,
    consts: Seq<Seq<u8>>,
    vm: Vm,
    d: u8,
    m: MemOp,
    k: u8,
    w: u8,
)
    requires
        (p.meaning(consts, vm).addr)(m) % 4 == 0,
        w == 1 ==> (p.meaning(consts, vm).addr)(m) % 8 == 0,
        w <= 1,
    ensures
        ({
            let before = p.meaning(consts, vm);
            let v = before.spread(w, (before.addr)(m));
            p.broadcast_load(d, Rm::Mem(m), k, w).meaning(consts, vm) == (Vm {
                z: before.z.insert(d, meaning::merged(before.z[d], v, k, before.k[k], w)),
                ..before.recovered(m)
            })
        }),
{
    broadcast use meaning::lemma_run;

    meaning::lemma_fields(0, 0);
    let before = p.meaning(consts, vm);
    assert(before.recovered(m).spread(w, (before.addr)(m)) =~= before.spread(w, (before.addr)(m)));
}

/// How many dwords a scalar has.
pub open spec fn scalar_dwords(w: u8) -> int {
    if w == 0 {
        1
    } else {
        2
    }
}

/// Above a scalar, zero.
proof fn lemma_scalar_above(
    p: Prog,
    consts: Seq<Seq<u8>>,
    vm: Vm,
    d: u8,
    w: u8,
    lanes: u16,
)
    requires
        p.meaning(consts, vm).wf(),
        w <= 1,
        lanes == (if w == 1 {
            0xfffcu16
        } else {
            0xfffe
        }),
        p.kscr != 0,
    ensures
        ({
            let before = p.meaning(consts, vm);
            let q = p.zero_lanes(d, lanes);
            let after = q.meaning(consts, vm);
            &&& meaning::only(before, after, d, p.kscr)
            &&& q.temps == p.temps && q.kscr == p.kscr
            &&& forall|i: int|
                0 <= i < 16 ==> #[trigger] after.z[d][i] == (if i < scalar_dwords(w) {
                    before.z[d][i]
                } else {
                    0
                })
        }),
{
    meaning::lemma_mask_imm(p, consts, vm, lanes);
    let p1 = p.mask_imm(lanes);
    meaning::lemma_zero(p1, consts, vm, d, p.kscr, 0);
    let before = p.meaning(consts, vm);
    let after = p.zero_lanes(d, lanes).meaning(consts, vm);
    assert forall|i: int| 0 <= i < 16 implies #[trigger] after.z[d][i] == (if i < scalar_dwords(
        w,
    ) {
        before.z[d][i]
    } else {
        0
    }) by {
        meaning::lemma_lanes(i as u16);
    }
}

/// A scalar load takes its element from memory where the mask has it, and
/// zeroes the rest of the register.
#[verifier::rlimit(40)]
pub proof fn law_scalar_load(insn: Decoded, ev: Ev, scratch: i32, m: MemOp, vm: Vm)
    requires
        meaning::shaped(insn, ev),
        MemOp::spec_of(insn) == Some(m),
        insn.kind(0) == insn::KIND_REGISTER,
        ev.z ==> ev.aaa == 0,
        meaning::at_hand(vm, insn, ev),
        vm.wf(),
    ensures
        ({
            let p = arith::scalar_move_outcome(insn, ev, scratch)->Thunk_0;
            let after = p.meaning(p.consts, vm);
            &&& arith::scalar_move_outcome(insn, ev, scratch) is Thunk
            &&& meaning::apart(vm, after, p.temps, ev.reg, p.kscr)
            &&& forall|i: int|
                0 <= i < 16 ==> #[trigger] after.z[ev.reg][i] == (if i >= scalar_dwords(ev.w) {
                    0
                } else if ev.aaa == 0 || meaning::bit(vm.k[ev.aaa], 0) {
                    (vm.mem)((vm.addr)(m) + 4 * i)
                } else {
                    vm.z[ev.reg][i]
                })
        }),
{
    broadcast use meaning::lemma_run;

    let p0 = Prog::start(scratch, insn);
    let fin = arith::scalar_move_outcome(insn, ev, scratch)->Thunk_0;
    let consts = fin.consts;
    meaning::lemma_begin(scratch, insn, ev);
    assert(p0.meaning(consts, vm) == vm);
    meaning::lemma_mask_imm(p0, consts, vm, 1);
    let k = if ev.aaa != 0 {
        p0.kscr
    } else {
        0
    };
    let p1 = if ev.aaa != 0 {
        p0.masked_lanes(1, ev.aaa)
    } else {
        p0
    };
    let before = p1.meaning(consts, vm);
    assert(before.z == vm.z && before.mem == vm.mem && before.addr == vm.addr && before.ok);
    lemma_broadcast_load(p1, consts, vm, ev.reg, m, k, ev.w);
    let p2 = p1.broadcast_load(ev.reg, Rm::Mem(m), k, ev.w);
    let mid = p2.meaning(consts, vm);
    let lanes: u16 = if ev.w == 1 {
        0xfffc
    } else {
        0xfffe
    };
    lemma_scalar_above(p2, consts, vm, ev.reg, ev.w, lanes);
    assert(fin == p2.zero_lanes(ev.reg, lanes));
    let j = 0u16;
    meaning::lemma_lanes(j);
    meaning::lemma_bits(1, vm.k[ev.aaa], j);
    assert(forall|i: int| 0 <= i < scalar_dwords(ev.w) ==> #[trigger] mid.z[ev.reg][i] == (if ev.aaa
        == 0 || meaning::bit(vm.k[ev.aaa], 0) {
        (vm.mem)((vm.addr)(m) + 4 * i)
    } else {
        vm.z[ev.reg][i]
    }));
}

/// vmovd and vmovq from memory take a dword or a qword from it, and zero the
/// rest of the register.
pub proof fn law_movd_load(insn: Decoded, d: u8, scratch: i32, m: MemOp, vm: Vm)
    requires
        insn.head.op_count <= 5,
        MemOp::spec_of(insn) == Some(m),
        insn.kind(0) == insn::KIND_REGISTER,
        insn::vreg_of(insn.reg(0)) == Some(d),
        insn.kind(1) == insn::KIND_MEMORY,
        (vm.addr)(m) % 4 == 0,
        insn.head.mnemonic == mn::VMOVQ ==> (vm.addr)(m) % 8 == 0,
        vm.wf(),
    ensures
        ({
            let p = arith::movdq_outcome(insn, scratch)->Thunk_0;
            let after = p.meaning(p.consts, vm);
            let n: int = if insn.head.mnemonic == mn::VMOVQ {
                2
            } else {
                1
            };
            &&& arith::movdq_outcome(insn, scratch) is Thunk
            &&& meaning::apart(vm, after, p.temps, d, p.kscr)
            &&& forall|i: int|
                0 <= i < 16 ==> #[trigger] after.z[d][i] == (if i < n {
                    (vm.mem)((vm.addr)(m) + 4 * i)
                } else {
                    0
                })
        }),
{
    let w: u8 = if insn.head.mnemonic == mn::VMOVQ {
        1
    } else {
        0
    };
    let p0 = Prog::start(scratch, insn);
    let fin = arith::movdq_outcome(insn, scratch)->Thunk_0;
    let consts = fin.consts;
    laws::law_scratch_mask(scratch, insn);
    assert(p0.meaning(consts, vm) == vm);
    lemma_broadcast_load(p0, consts, vm, d, m, 0, w);
    let p1 = p0.broadcast_load(d, Rm::Mem(m), 0, w);
    let mid = p1.meaning(consts, vm);
    let lanes: u16 = if w == 1 {
        0xfffc
    } else {
        0xfffe
    };
    lemma_scalar_above(p1, consts, vm, d, w, lanes);
    assert(fin == p1.zero_lanes(d, lanes));
    assert(forall|i: int|
        0 <= i < scalar_dwords(w) ==> #[trigger] mid.z[d][i] == (vm.mem)((vm.addr)(m) + 4 * i));
}

/// vmovq between vector registers takes the low qword, and zeroes the rest.
pub proof fn law_movq(insn: Decoded, d: u8, s: u8, scratch: i32, vm: Vm)
    requires
        insn.head.op_count <= 5,
        insn.kind(0) == insn::KIND_REGISTER,
        insn::vreg_of(insn.reg(0)) == Some(d),
        insn.kind(1) == insn::KIND_REGISTER,
        insn::vreg_of(insn.reg(1)) == Some(s),
        vm.wf(),
    ensures
        ({
            let p = arith::movdq_outcome(insn, scratch)->Thunk_0;
            let after = p.meaning(p.consts, vm);
            &&& arith::movdq_outcome(insn, scratch) is Thunk
            &&& meaning::apart(vm, after, p.temps, d, p.kscr)
            &&& forall|i: int|
                0 <= i < 16 ==> #[trigger] after.z[d][i] == (if i < 2 {
                    vm.z[s][i]
                } else {
                    0
                })
        }),
{
    broadcast use meaning::lemma_run;

    let p0 = Prog::start(scratch, insn);
    let fin = arith::movdq_outcome(insn, scratch)->Thunk_0;
    let consts = fin.consts;
    laws::law_scratch_mask(scratch, insn);
    assert(p0.meaning(consts, vm) == vm);
    meaning::lemma_mask_imm(p0, consts, vm, 1);
    let p1 = p0.mask_imm(1).vmov(d, Rm::Reg(s), p0.kscr, 1);
    let mid = p1.meaning(consts, vm);
    lemma_scalar_above(p1, consts, vm, d, 1, 0xfffc);
    assert(fin == p1.zero_lanes(d, 0xfffc));
    meaning::lemma_lanes(0);
    assert(forall|i: int| 0 <= i < 2 ==> #[trigger] mid.z[d][i] == vm.z[s][i]);
}

/// vmovd and vmovq from a general register take a dword or a qword from it,
/// and zero the rest of the vector register.
pub proof fn law_movd_from_general(insn: Decoded, d: u8, g: (u8, bool), scratch: i32, vm: Vm)
    requires
        insn.head.op_count <= 5,
        insn.kind(0) == insn::KIND_REGISTER,
        insn::vreg_of(insn.reg(0)) == Some(d),
        insn.kind(1) == insn::KIND_REGISTER,
        insn::vreg_of(insn.reg(1)) is None,
        insn::gpr_of(insn.reg(1)) == Some(g),
        vm.general_value(g.0, insn.head.mnemonic == mn::VMOVQ) is Some,
        vm.wf(),
    ensures
        ({
            let p = arith::movdq_outcome(insn, scratch)->Thunk_0;
            let after = p.meaning(p.consts, vm);
            let wide = insn.head.mnemonic == mn::VMOVQ;
            let v = vm.general_value(g.0, wide)->0;
            &&& arith::movdq_outcome(insn, scratch) is Thunk
            &&& meaning::apart(vm, after, p.temps, d, p.kscr)
            &&& after.general == vm.general
            &&& forall|i: int|
                0 <= i < 16 ==> #[trigger] after.z[d][i] == (if i == 0 {
                    v.0
                } else if i == 1 && wide {
                    v.1
                } else {
                    0
                })
        }),
{
    broadcast use meaning::lemma_run;

    let wide = insn.head.mnemonic == mn::VMOVQ;
    let w: u8 = if wide {
        1
    } else {
        0
    };
    let p0 = Prog::start(scratch, insn);
    let fin = arith::movdq_outcome(insn, scratch)->Thunk_0;
    let consts = fin.consts;
    laws::law_scratch_mask(scratch, insn);
    assert(p0.meaning(consts, vm) == vm);
    reveal(Vm::exchange);
    meaning::lemma_fields(0, 0);
    let p1 = p0.gpr_scratch(g.0, wide, S_GPR, true).broadcast_load(d, Rm::Fs(S_GPR), 0, w);
    let mid = p1.meaning(consts, vm);
    assert(mid.wf());
    let lanes: u16 = if wide {
        0xfffc
    } else {
        0xfffe
    };
    lemma_scalar_above(p1, consts, vm, d, w, lanes);
    assert(fin == p1.zero_lanes(d, lanes));
    let v = vm.general_value(g.0, wide)->0;
    assert(mid.z[d][0] == v.0);
    assert(wide ==> mid.z[d][1] == v.1);
}

proof fn lemma_few(m: u16, n: int, i: int)
    requires
        0 <= n <= i <= 16,
        forall|j: int| 0 <= j < 16 ==> #[trigger] meaning::bit(m, j) == (j < n),
    ensures
        meaning::rank(m, i) == n,
    decreases i,
{
    if i > n {
        lemma_few(m, n, i - 1);
        assert(!meaning::bit(m, i - 1));
    } else {
        lemma_rank(m, n, i);
    }
}

/// vmovd and vmovq to a general register put a dword or a qword of the vector
/// register there, and zeros above a dword.
pub proof fn law_movd_to_general(insn: Decoded, s: u8, g: (u8, bool), scratch: i32, vm: Vm)
    requires
        insn.head.op_count <= 5,
        insn.kind(0) == insn::KIND_REGISTER,
        insn::vreg_of(insn.reg(0)) is None,
        insn::gpr_of(insn.reg(0)) == Some(g),
        insn::vreg_of(insn.reg(1)) == Some(s),
        vm.wf(),
    ensures
        ({
            let p = arith::movdq_outcome(insn, scratch)->Thunk_0;
            let after = p.meaning(p.consts, vm);
            let high = if insn.head.mnemonic == mn::VMOVQ {
                vm.z[s][1]
            } else {
                0
            };
            &&& arith::movdq_outcome(insn, scratch) is Thunk
            &&& after.wf()
            &&& after.z == vm.z && after.mem == vm.mem
            &&& forall|k: u8| k != p.kscr ==> #[trigger] after.k[k] == vm.k[k]
            &&& after.general == vm.general.insert(g.0, (vm.z[s][0], high))
        }),
{
    broadcast use meaning::lemma_run;

    let wide = insn.head.mnemonic == mn::VMOVQ;
    let n: int = if wide {
        2
    } else {
        1
    };
    let mask: u16 = if wide {
        3
    } else {
        1
    };
    let p0 = Prog::start(scratch, insn);
    let fin = arith::movdq_outcome(insn, scratch)->Thunk_0;
    let consts = fin.consts;
    let k = p0.kscr;
    reveal(Vm::exchange);
    laws::law_scratch_mask(scratch, insn);
    assert(p0.meaning(consts, vm) == vm);
    meaning::lemma_mask_imm(p0, consts, vm, mask);
    let p1 = p0.mask_imm(mask);
    let m1 = p1.meaning(consts, vm);
    assert forall|i: int| 0 <= i < 16 implies #[trigger] meaning::bit(m1.k[k], i) == (i < n) by {
        meaning::lemma_lanes(i as u16);
    }
    lemma_few(m1.k[k], n, 16);
    let held = Vm {
        mem: |y: int|
            if y == 24 {
                m1.word.0
            } else {
                m1.word.1
            },
        ..m1
    };
    let p2 = p1.mvex(2, 1, 0, 0xD0, s, 0, Rm::Fs(S_GPR), k, 0, None);
    let m2 = p2.meaning(consts, vm);
    let kept = held.packed(true, s, k, 24);
    assert(m2 == (Vm { word: (kept(24), kept(28)), ..m1 }));
    lemma_packed(held, true, s, k, 24, n, 24);
    lemma_packed(held, true, s, k, 24, n, 28);
    assert(fin == p2.gpr_result(g.0, wide, S_GPR));
}

/// vmovd and vmovq to memory write a dword or a qword of the register, and
/// nothing else.
pub proof fn law_movd_store(insn: Decoded, s: u8, scratch: i32, m: MemOp, vm: Vm)
    requires
        insn.head.op_count <= 5,
        MemOp::spec_of(insn) == Some(m),
        insn.kind(0) == insn::KIND_MEMORY,
        insn::vreg_of(insn.reg(1)) == Some(s),
        readable(vm, m),
        vm.wf(),
    ensures
        ({
            let p = arith::movdq_outcome(insn, scratch)->Thunk_0;
            let after = p.meaning(p.consts, vm);
            let n: int = if insn.head.mnemonic == mn::VMOVQ {
                2
            } else {
                1
            };
            &&& arith::movdq_outcome(insn, scratch) is Thunk
            &&& after.wf()
            &&& after.z == vm.z
            &&& forall|k: u8| k != p.kscr ==> #[trigger] after.k[k] == vm.k[k]
            &&& forall|y: int| #[trigger] (after.mem)(y) == stored(vm, vm.z[s], m, n, y)
        }),
{
    let n: int = if insn.head.mnemonic == mn::VMOVQ {
        2
    } else {
        1
    };
    let lanes: u16 = if insn.head.mnemonic == mn::VMOVQ {
        3
    } else {
        1
    };
    let p0 = Prog::start(scratch, insn);
    let fin = arith::movdq_outcome(insn, scratch)->Thunk_0;
    let consts = fin.consts;
    laws::law_scratch_mask(scratch, insn);
    assert(p0.meaning(consts, vm) == vm);
    meaning::lemma_mask_imm(p0, consts, vm, lanes);
    let p1 = p0.mask_imm(lanes);
    let before = p1.meaning(consts, vm);
    assert forall|i: int| 0 <= i < 16 implies #[trigger] meaning::bit(before.k[p0.kscr], i) == (i
        < n) by {
        meaning::lemma_lanes(i as u16);
    }
    lemma_store_pair(p1, consts, vm, s, m, p0.kscr, n);
    assert(fin == p1.store_unaligned(m, s, p0.kscr, false, 0));
}

} // verus!
