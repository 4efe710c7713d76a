//! What the rewritten compares compute, in the model of
//! [`crate::xlate::meaning`].
use crate::bits;
use crate::xlate::code::{MemOp, Mvex, Rm};
use crate::xlate::ev;
use crate::xlate::ev::Ev;
use crate::xlate::insn::Decoded;
use crate::xlate::laws;
use crate::xlate::mask;
use crate::xlate::mask::Predicate;
use crate::xlate::meaning;
use crate::xlate::meaning::Vm;
use crate::xlate::prog;
use crate::xlate::prog::{Prog, Step};
use crate::xlate::results;
use crate::xlate::rewrite;
use crate::xlate::table;
use crate::xlate::table::Canon;
use vstd::prelude::*;

verus! {

/// How element `i` of register `a` compares with that of `b`.
pub open spec fn between(vm: Vm, w: u8, a: u8, b: u8, i: int) -> meaning::Relation {
    meaning::relation(w, meaning::element(vm.z[a], w, i), meaning::element(vm.z[b], w, i))
}

/// A mask register's number is its low three bits.
pub proof fn lemma_low_three(kd: u8)
    requires
        kd < 8,
    ensures
        kd & 7 == kd,
{
    assert(kd & 7 == kd) by (bit_vector)
        requires
            kd < 8,
    ;
}

/// Whether `after` is `before` with another mask in `kd`.
pub open spec fn marked(before: Vm, after: Vm, kd: u8) -> bool {
    after == (Vm { k: before.k.insert(kd, after.k[kd]), ..before })
}

/// The card's compare, its operands swapped or not.
pub proof fn lemma_either(
    p: Prog,
    consts: Seq<Seq<u8>>,
    vm: Vm,
    kd: u8,
    s1: u8,
    s2: u8,
    pred: u8,
    swap: bool,
    k: u8,
    w: u8,
)
    requires
        pred < 8,
        w <= 1,
    ensures
        ({
            let before = p.meaning(consts, vm);
            let after = p.compare_either(kd, s1, s2, pred, swap, k, w).meaning(consts, vm);
            &&& marked(before, after, kd)
            &&& forall|i: int|
                0 <= i < 16 ==> #[trigger] meaning::bit(after.k[kd], i) == (i < meaning::elements(w)
                    && meaning::selects(before, k, i) && meaning::fulfils(
                    pred,
                    if swap {
                        between(before, w, s2, s1, i)
                    } else {
                        between(before, w, s1, s2, i)
                    },
                ))
        }),
{
    broadcast use meaning::lemma_run;

    let before = p.meaning(consts, vm);
    let after = p.compare_either(kd, s1, s2, pred, swap, k, w).meaning(consts, vm);
    let (a, b) = if swap {
        (s2, s1)
    } else {
        (s1, s2)
    };
    let m = Mvex {
        map: 1,
        pp: w,
        w,
        op: 0xC2,
        reg: kd,
        vvvv: a,
        rm: Rm::Reg(b),
        k,
        sss: 0,
        imm: Some(pred),
    };
    assert(after == before.mvex(consts, m));
    let f = |i: int| meaning::selects(before, m.k, i) && Vm::found(
        m,
        before.z[a],
        before.z[b],
        i,
    );
    assert(before.compared(m, before.z[a], before.z[b]) == meaning::mask_where(f, 16));
    assert forall|i: int| 0 <= i < 16 implies #[trigger] meaning::bit(after.k[kd], i) == (i
        < meaning::elements(w) && meaning::selects(before, k, i) && meaning::fulfils(
        pred,
        if swap {
            between(before, w, s2, s1, i)
        } else {
            between(before, w, s1, s2, i)
        },
    )) by {
        meaning::lemma_mask_where(f, 16, i);
    }
}

/// The second compare joined to the first, through a mask that is given back.
proof fn lemma_joined(
    p: Prog,
    consts: Seq<Seq<u8>>,
    vm: Vm,
    kd: u8,
    s1: u8,
    s2: u8,
    second: (u8, bool),
    keff: u8,
    ev: Ev,
)
    requires
        second.0 < 8,
        ev.w <= 1,
        kd < 8,
        p.kscr < 8,
        ev.aaa < 8,
        keff == p.kscr || keff == ev.aaa,
        keff == 0 || keff != kd,
    ensures
        ({
            let before = p.meaning(consts, vm);
            let after = p.joined(kd, s1, s2, second, keff, ev).meaning(consts, vm);
            &&& after == (Vm { k: after.k, gp: after.gp, ..before })
            &&& forall|k: u8| k != kd ==> #[trigger] after.k[k] == before.k[k]
            &&& forall|i: int|
                0 <= i < 16 ==> #[trigger] meaning::bit(after.k[kd], i) == (meaning::bit(
                    before.k[kd],
                    i,
                ) || (i < meaning::elements(ev.w) && meaning::selects(before, keff, i)
                    && meaning::fulfils(
                    second.0,
                    if second.1 {
                        between(before, ev.w, s2, s1, i)
                    } else {
                        between(before, ev.w, s1, s2, i)
                    },
                )))
        }),
{
    broadcast use meaning::lemma_run;

    let before = p.meaning(consts, vm);
    let held = seq![kd, p.kscr, ev.aaa];
    let k2 = prog::free_mask(held, 7);
    laws::lemma_mask_left(held);
    assert(held[0] == kd && held[1] == p.kscr && held[2] == ev.aaa);
    assert(k2 != kd && k2 != p.kscr && k2 != ev.aaa && k2 != 0);
    let p1 = p.step(Step::Rcx).vexk(0x93, 1, k2);
    let m1 = p1.meaning(consts, vm);
    let p2 = p1.compare_either(k2, s1, s2, second.0, second.1, keff, ev.w);
    lemma_either(p1, consts, vm, k2, s1, s2, second.0, second.1, keff, ev.w);
    let m2 = p2.meaning(consts, vm);
    let p3 = p2.vexk(0x45, kd, k2);
    let m3 = p3.meaning(consts, vm);
    assert(m3.k[kd] == m2.k[kd] | m2.k[k2]);
    let after = p.joined(kd, s1, s2, second, keff, ev).meaning(consts, vm);
    assert(after.k[kd] == m3.k[kd]);
    assert(after.k[k2] == before.k[k2]);
    assert forall|i: int| 0 <= i < 16 implies #[trigger] meaning::bit(after.k[kd], i) == (
    meaning::bit(before.k[kd], i) || meaning::bit(m2.k[k2], i)) by {
        meaning::lemma_bits(m2.k[kd], m2.k[k2], i as u16);
    }
}

/// Whether the compare needs two of the card's.
pub open spec fn twofold(pred: u8) -> bool {
    mask::predicate(pred) matches Predicate::Card(_, _, Some(_))
}

/// The elements a compare looks at.
spec fn limited(p: Prog, ev: Ev) -> Prog {
    if ev.ll == 2 {
        p
    } else {
        p.masked_lanes(ev::vl_lanes(ev.ll, ev.w), ev.aaa)
    }
}

proof fn lemma_effective(
    insn: Decoded,
    ev: Ev,
    scratch: i32,
    consts: Seq<Seq<u8>>,
    vm: Vm,
    p1: Prog,
    keff: u8,
)
    requires
        meaning::shaped(insn, ev),
        vm.wf(),
        p1 == limited(Prog::start(scratch, insn), ev),
        keff == (if ev.ll == 2 {
            ev.aaa
        } else {
            Prog::start(scratch, insn).kscr
        }),
    ensures
        ({
            let p0 = Prog::start(scratch, insn);
            let vl = ev::vl_lanes(ev.ll, ev.w);
            let before = p1.meaning(consts, vm);
            &&& p1.kscr == p0.kscr
            &&& before.ok && before.z == vm.z
            &&& before.mem == vm.mem && before.addr == vm.addr
            &&& forall|k: u8| k != p0.kscr ==> #[trigger] before.k[k] == vm.k[k]
            &&& forall|i: int|
                0 <= i < meaning::elements(ev.w) ==> #[trigger] meaning::selects(before, keff, i)
                    == (meaning::bit(vl, i) && (ev.aaa == 0 || meaning::bit(vm.k[ev.aaa], i)))
            &&& ev.ll != 2 ==> forall|i: int|
                0 <= i < 16 && #[trigger] meaning::bit(before.k[keff], i) ==> meaning::bit(vl, i)
        }),
{
    broadcast use meaning::lemma_run;

    let p0 = Prog::start(scratch, insn);
    let vl = ev::vl_lanes(ev.ll, ev.w);
    meaning::lemma_begin(scratch, insn, ev);
    assert(p0.meaning(consts, vm) == vm);
    meaning::lemma_mask_imm(p0, consts, vm, vl);
    let before = p1.meaning(consts, vm);
    assert forall|i: int| 0 <= i < meaning::elements(ev.w) implies #[trigger] meaning::selects(
        before,
        keff,
        i,
    ) == (meaning::bit(vl, i) && (ev.aaa == 0 || meaning::bit(vm.k[ev.aaa], i))) by {
        meaning::lemma_lanes(i as u16);
        meaning::lemma_bits(vl, vm.k[ev.aaa], i as u16);
    }
    if ev.ll != 2 {
        assert forall|i: int| 0 <= i < 16 && #[trigger] meaning::bit(before.k[keff], i) implies
            meaning::bit(vl, i) by {
            meaning::lemma_bits(vl, vm.k[ev.aaa], i as u16);
        }
    }
}

/// One or two of the card's compares, limited to the elements looked at.
spec fn carded(
    p: Prog,
    kd: u8,
    q: u8,
    swap: bool,
    second: Option<(u8, bool)>,
    keff: u8,
    ev: Ev,
) -> Prog {
    let p2 = p.compare_either(kd, ev.vvvv, ev.rm, q, swap, keff, ev.w);
    let p3 = match second {
        Some(t) => p2.joined(kd, ev.vvvv, ev.rm, t, keff, ev),
        None => p2,
    };
    if keff == 0 {
        p3
    } else {
        p3.vexk(0x41, kd, keff)
    }
}

proof fn lemma_card(
    p: Prog,
    consts: Seq<Seq<u8>>,
    vm: Vm,
    kd: u8,
    q: u8,
    swap: bool,
    second: Option<(u8, bool)>,
    keff: u8,
    ev: Ev,
    out: Prog,
)
    requires
        q < 8,
        second is Some ==> (second->0).0 < 8,
        ev.w <= 1,
        kd < 8,
        p.kscr < 8,
        kd != p.kscr,
        ev.aaa < 8,
        keff == p.kscr || keff == ev.aaa,
        second is Some ==> keff == 0 || keff != kd,
        out == carded(p, kd, q, swap, second, keff, ev),
    ensures
        ({
            let before = p.meaning(consts, vm);
            let after = out.meaning(consts, vm);
            &&& after == (Vm { k: after.k, gp: after.gp, ..before })
            &&& forall|k: u8| k != kd ==> #[trigger] after.k[k] == before.k[k]
            &&& forall|i: int|
                0 <= i < 16 ==> #[trigger] meaning::bit(after.k[kd], i) == (i < meaning::elements(
                    ev.w,
                ) && meaning::selects(before, keff, i) && (meaning::fulfils(
                    q,
                    if swap {
                        between(before, ev.w, ev.rm, ev.vvvv, i)
                    } else {
                        between(before, ev.w, ev.vvvv, ev.rm, i)
                    },
                ) || (second is Some && meaning::fulfils(
                    (second->0).0,
                    if (second->0).1 {
                        between(before, ev.w, ev.rm, ev.vvvv, i)
                    } else {
                        between(before, ev.w, ev.vvvv, ev.rm, i)
                    },
                ))))
        }),
{
    broadcast use meaning::lemma_run;

    let before = p.meaning(consts, vm);
    let p2 = p.compare_either(kd, ev.vvvv, ev.rm, q, swap, keff, ev.w);
    lemma_either(p, consts, vm, kd, ev.vvvv, ev.rm, q, swap, keff, ev.w);
    let m2 = p2.meaning(consts, vm);
    let p3 = match second {
        Some(t) => p2.joined(kd, ev.vvvv, ev.rm, t, keff, ev),
        None => p2,
    };
    if second is Some {
        lemma_joined(p2, consts, vm, kd, ev.vvvv, ev.rm, second->0, keff, ev);
    }
    let m3 = p3.meaning(consts, vm);
    assert(m3.k[keff] == before.k[keff] || keff == kd);
    let p4 = if keff == 0 {
        p3
    } else {
        p3.vexk(0x41, kd, keff)
    };
    let after = p4.meaning(consts, vm);
    assert forall|i: int| 0 <= i < 16 implies #[trigger] meaning::bit(after.k[kd], i)
        == meaning::bit(m3.k[kd], i) by {
        meaning::lemma_bits(m3.k[kd], m3.k[keff], i as u16);
        assert(meaning::bit(m2.k[kd], i) ==> meaning::selects(before, keff, i));
        assert(meaning::bit(m3.k[kd], i) ==> meaning::selects(before, keff, i));
    }
    assert forall|i: int| 0 <= i < 16 implies #[trigger] meaning::bit(m3.k[kd], i) == (i
        < meaning::elements(ev.w) && meaning::selects(before, keff, i) && (meaning::fulfils(
        q,
        if swap {
            between(before, ev.w, ev.rm, ev.vvvv, i)
        } else {
            between(before, ev.w, ev.vvvv, ev.rm, i)
        },
    ) || (second is Some && meaning::fulfils(
        (second->0).0,
        if (second->0).1 {
            between(before, ev.w, ev.rm, ev.vvvv, i)
        } else {
            between(before, ev.w, ev.vvvv, ev.rm, i)
        },
    )))) by {
        assert(meaning::bit(m2.k[kd], i) == meaning::bit(m2.k[kd], i));
        if second is Some {
            assert(meaning::selects(m2, keff, i) == meaning::selects(before, keff, i));
        }
    }
}

/// A mask set to nothing, or to the elements looked at.
proof fn lemma_constant(p: Prog, consts: Seq<Seq<u8>>, vm: Vm, kd: u8, keff: u8, ev: Ev)
    requires
        p.meaning(consts, vm).ok,
        ev.w <= 1,
        ev.ll <= 2,
        kd != p.kscr,
        ev.aaa != p.kscr,
        keff == (if ev.ll == 2 {
            ev.aaa
        } else {
            p.kscr
        }),
        ev.ll != 2 ==> forall|i: int|
            0 <= i < 16 && #[trigger] meaning::bit(p.meaning(consts, vm).k[keff], i) ==> meaning::bit(
                ev::vl_lanes(ev.ll, ev.w),
                i,
            ),
        p.kscr != 0,
    ensures
        ({
            let before = p.meaning(consts, vm);
            let none = p.mask_to(kd, 0).meaning(consts, vm);
            let all = p.all_true(kd, keff, ev).meaning(consts, vm);
            &&& none.ok && none.z == before.z
            &&& forall|k: u8| k != kd ==> #[trigger] none.k[k] == before.k[k]
            &&& all.ok && all.z == before.z
            &&& forall|k: u8| k != kd && k != p.kscr ==> #[trigger] all.k[k] == before.k[k]
            &&& forall|i: int|
                0 <= i < 16 ==> !#[trigger] meaning::bit(none.k[kd], i)
            &&& forall|i: int|
                0 <= i < 16 ==> #[trigger] meaning::bit(all.k[kd], i) == (i < meaning::elements(
                    ev.w,
                ) && meaning::selects(before, keff, i))
            &&& p.all_true(kd, keff, ev).kscr == p.kscr
        }),
{
    broadcast use meaning::lemma_run;

    let before = p.meaning(consts, vm);
    meaning::lemma_mov_eax(0, before.gp);
    meaning::lemma_mov_eax(ev::vl_lanes(2, ev.w) as u32, before.gp);
    meaning::lemma_mask_imm(p, consts, vm, ev::vl_lanes(2, 1));
    let none = p.mask_to(kd, 0).meaning(consts, vm);
    let all = p.all_true(kd, keff, ev).meaning(consts, vm);
    assert forall|i: int| 0 <= i < 16 implies !#[trigger] meaning::bit(none.k[kd], i) by {
        meaning::lemma_bits(0, 0, i as u16);
    }
    assert forall|i: int| 0 <= i < 16 implies #[trigger] meaning::bit(all.k[kd], i) == (i
        < meaning::elements(ev.w) && meaning::selects(before, keff, i)) by {
        meaning::lemma_lanes(i as u16);
        meaning::lemma_bits(ev::vl_lanes(2, 1), before.k[ev.aaa], i as u16);
    }
}

/// The card's form of a predicate says what the predicate does.
proof fn lemma_predicate(pred: u8, w: u8, x: int, y: int)
    requires
        8 <= pred < 32,
    ensures
        ({
            let fore = meaning::relation(w, x, y);
            let back = meaning::relation(w, y, x);
            match mask::predicate(pred) {
                Predicate::False => !meaning::fulfils(pred, fore),
                Predicate::True => meaning::fulfils(pred, fore),
                Predicate::Card(q, swap, second) => {
                    &&& q < 8
                    &&& second is Some ==> (second->0).0 < 8
                    &&& meaning::fulfils(pred, fore) == (meaning::fulfils(
                        q,
                        if swap {
                            back
                        } else {
                            fore
                        },
                    ) || (second is Some && meaning::fulfils(
                        (second->0).0,
                        if (second->0).1 {
                            back
                        } else {
                            fore
                        },
                    )))
                },
            }
        }),
{
}

/// The mask that two compares run under, kept where the first would change it.
proof fn lemma_kept(p: Prog, consts: Seq<Seq<u8>>, vm: Vm, ev: Ev, two: bool)
    requires
        p.meaning(consts, vm).ok,
        ev.aaa != p.kscr,
    ensures
        ({
            let before = p.meaning(consts, vm);
            let q = p.kept_mask(ev, two);
            let after = q.meaning(consts, vm);
            &&& q.kscr == p.kscr
            &&& after == (Vm { k: after.k, gp: after.gp, ..before })
            &&& forall|k: u8| k != p.kscr ==> #[trigger] after.k[k] == before.k[k]
            &&& mask::clashes(ev, two) ==> after.k[p.kscr] == before.k[ev.aaa]
            &&& !mask::clashes(ev, two) ==> after.k == before.k
        }),
{
    broadcast use meaning::lemma_run;

}

/// A float compare between registers with one of AVX-512's upper predicates
/// sets its destination's bits where the predicate holds, of the elements
/// there are and the write mask selects, and clears the others; it changes no
/// other register but the scratch mask.
pub proof fn law_compare(insn: Decoded, ev: Ev, scratch: i32, vm: Vm)
    requires
        meaning::between(insn, ev),
        vm.wf(),
        ev.map == 1,
        8 <= insn.head.imm8 < 32,
        ev.aaa < 8,
        prog::mask_regs(insn).contains(ev.reg & 7),
    ensures
        ({
            let p = mask::compare_outcome(insn, ev, scratch)->Thunk_0;
            let kd = ev.reg & 7;
            let after = p.meaning(p.consts, vm);
            &&& mask::compare_outcome(insn, ev, scratch) is Thunk
            &&& after.ok && after.z == vm.z
            &&& forall|k: u8| k != kd && k != p.kscr ==> #[trigger] after.k[k] == vm.k[k]
            &&& forall|i: int|
                0 <= i < 16 ==> #[trigger] meaning::bit(after.k[kd], i) == (meaning::bit(
                    ev::vl_lanes(ev.ll, ev.w),
                    i,
                ) && (ev.aaa == 0 || meaning::bit(vm.k[ev.aaa], i)) && meaning::fulfils(
                    insn.head.imm8,
                    between(vm, ev.w, ev.vvvv, ev.rm, i),
                ))
        }),
{
    let kd = ev.reg & 7;
    let full = ev.ll == 2;
    let p0 = Prog::start(scratch, insn);
    let fin = mask::compare_outcome(insn, ev, scratch)->Thunk_0;
    let consts = fin.consts;
    let pred = insn.head.imm8;
    meaning::lemma_start(scratch, insn, ev);
    laws::law_scratch_mask(scratch, insn);
    bits::lemma_low(ev.reg);
    assert(kd != p0.kscr);
    let vl = ev::vl_lanes(ev.ll, ev.w);
    let keff = if full {
        ev.aaa
    } else {
        p0.kscr
    };
    let p1 = limited(p0, ev);
    lemma_effective(insn, ev, scratch, consts, vm, p1, keff);
    let before = p1.meaning(consts, vm);
    assert((keff == 0) == (full && ev.aaa == 0));
    lemma_predicate(pred, ev.w, 0, 0);
    lemma_constant(p1, consts, vm, kd, keff, ev);
    let two = twofold(pred);
    let p2 = p1.kept_mask(ev, two);
    lemma_kept(p1, consts, vm, ev, two);
    let held = p2.meaning(consts, vm);
    let kheld = if mask::clashes(ev, two) {
        p0.kscr
    } else {
        keff
    };
    match mask::predicate(pred) {
        Predicate::False => {
            assert(fin == p1.mask_to(kd, 0));
        },
        Predicate::True => {
            assert(fin == p1.all_true(kd, keff, ev));
        },
        Predicate::Card(q, swap, second) => {
            assert(fin == carded(p2, kd, q, swap, second, kheld, ev));
            lemma_card(p2, consts, vm, kd, q, swap, second, kheld, ev, fin);
        },
    }
    assert(fin.kscr == p0.kscr);
    let after = fin.meaning(consts, vm);
    assert(after.ok && after.z == vm.z);
    assert forall|k: u8| k != kd && k != fin.kscr implies #[trigger] after.k[k] == vm.k[k] by {
        assert(before.k[k] == vm.k[k]);
        assert(held.k[k] == before.k[k]);
    }
    assert forall|i: int| 0 <= i < 16 implies #[trigger] meaning::bit(after.k[kd], i) == (
    meaning::bit(vl, i) && (ev.aaa == 0 || meaning::bit(vm.k[ev.aaa], i)) && meaning::fulfils(
        pred,
        between(vm, ev.w, ev.vvvv, ev.rm, i),
    )) by {
        lemma_predicate(
            pred,
            ev.w,
            meaning::element(vm.z[ev.vvvv], ev.w, i),
            meaning::element(vm.z[ev.rm], ev.w, i),
        );
        meaning::lemma_lanes(i as u16);
        assert(between(held, ev.w, ev.vvvv, ev.rm, i) == between(vm, ev.w, ev.vvvv, ev.rm, i));
        assert(between(held, ev.w, ev.rm, ev.vvvv, i) == between(vm, ev.w, ev.rm, ev.vvvv, i));
        if i < meaning::elements(ev.w) {
            assert(meaning::selects(before, keff, i) == (meaning::bit(vl, i) && (ev.aaa == 0
                || meaning::bit(vm.k[ev.aaa], i))));
            assert(meaning::selects(held, kheld, i) == meaning::selects(before, keff, i));
        }
    }
}

/// A compare of the table, narrow or masked, its second source a register or
/// an element broadcast from memory: its destination's bits are set where it
/// holds, of the elements there are and the write mask selects, and cleared
/// elsewhere.
pub proof fn law_generic_compare(insn: Decoded, ev: Ev, c: Canon, scratch: i32, vm: Vm)
    requires
        meaning::shaped(insn, ev),
        insn.has_mem() ==> ev.b,
        meaning::at_hand(vm, insn, ev),
        rewrite::spelling(ev) == Some(c),
        c.w == ev.w,
        table::writes_mask(ev),
        Vm::into_mask(results::unmasked(insn, ev, c)),
        ev.reg < 8,
        prog::mask_regs(insn).contains(ev.reg),
        vm.wf(),
    ensures
        ({
            let p = table::generic_outcome(insn, ev, c, scratch)->Thunk_0;
            let after = p.meaning(p.consts, vm);
            &&& table::generic_outcome(insn, ev, c, scratch) is Thunk
            &&& after.ok && after.z == vm.z
            &&& forall|k: u8| k != ev.reg && k != p.kscr ==> #[trigger] after.k[k] == vm.k[k]
            &&& forall|i: int|
                0 <= i < 16 ==> #[trigger] meaning::bit(after.k[ev.reg], i)
                    == (meaning::bit(ev::vl_lanes(ev.ll, ev.w), i) && (ev.aaa == 0 || meaning::bit(
                    vm.k[ev.aaa],
                    i,
                )) && Vm::found(
                    results::unmasked(insn, ev, c),
                    vm.z[ev.vvvv],
                    meaning::second(vm, insn, ev),
                    i,
                ))
        }),
{
    broadcast use meaning::lemma_run;

    let kd = ev.reg;
    let full = ev.ll == 2;
    let p0 = Prog::start(scratch, insn);
    let fin = table::generic_outcome(insn, ev, c, scratch)->Thunk_0;
    let consts = fin.consts;
    meaning::lemma_begin(scratch, insn, ev);
    laws::law_scratch_mask(scratch, insn);
    lemma_low_three(kd);
    let vl = ev::vl_lanes(ev.ll, ev.w);
    let keff = if full {
        ev.aaa
    } else {
        p0.kscr
    };
    let p1 = limited(p0, ev);
    lemma_effective(insn, ev, scratch, consts, vm, p1, keff);
    let before = p1.meaning(consts, vm);
    let rm = p0.staged_rm(table::staging(insn, ev));
    let b = meaning::second(vm, insn, ev);
    let m = Mvex { rm: rm.0, k: keff, sss: rm.1, ..results::unmasked(insn, ev, c) };
    let p2 = p1.mvex(c.map, c.pp, c.w, c.op, kd, ev.vvvv, rm.0, keff, rm.1, m.imm);
    assert(before.spread(ev.w, (vm.addr)(MemOp::spec_of(insn)->0)) =~= vm.spread(
        ev.w,
        (vm.addr)(MemOp::spec_of(insn)->0),
    ));
    let ran = p2.meaning(consts, vm);
    assert(ran == before.mvex(consts, m));
    let at = match MemOp::spec_of(insn) {
        Some(x) => before.recovered(x),
        None => before,
    };
    assert(at.spread(ev.w, (vm.addr)(MemOp::spec_of(insn)->0)) =~= vm.spread(
        ev.w,
        (vm.addr)(MemOp::spec_of(insn)->0),
    ));
    let f = |i: int| meaning::selects(at, m.k, i) && Vm::found(
        m,
        at.z[ev.vvvv],
        b,
        i,
    );
    assert(ran.k[kd] == meaning::mask_where(f, 16));
    let after = fin.meaning(consts, vm);
    assert(fin == p2.settled(ev, kd, keff));
    assert forall|k: u8| k != kd && k != fin.kscr implies #[trigger] after.k[k] == vm.k[k] by {
        assert(before.k[k] == vm.k[k]);
    }
    assert forall|i: int| 0 <= i < 16 implies #[trigger] meaning::bit(after.k[kd], i) == (
    meaning::bit(vl, i) && (ev.aaa == 0 || meaning::bit(vm.k[ev.aaa], i)) && Vm::found(
        results::unmasked(insn, ev, c),
        vm.z[ev.vvvv],
        b,
        i,
    )) by {
        meaning::lemma_mask_where(f, 16, i);
        meaning::lemma_lanes(i as u16);
        meaning::lemma_bits(ran.k[kd], ran.k[keff], i as u16);
        if i < meaning::elements(ev.w) {
            assert(meaning::selects(before, keff, i) == (meaning::bit(vl, i) && (ev.aaa == 0
                || meaning::bit(vm.k[ev.aaa], i))));
        }
        assert(f(i) == (meaning::selects(before, m.k, i) && Vm::found(
            results::unmasked(insn, ev, c),
            vm.z[ev.vvvv],
            b,
            i,
        )));
    }
}

/// What AVX-512 leaves of a blend: the second source where the mask has it,
/// the first elsewhere, or zero, and zero above the length.
pub open spec fn blended(ev: Ev, a: Seq<u32>, b: Seq<u32>, mask: u16) -> Seq<u32> {
    meaning::written(ev, a, b, mask)
}

/// A blend between registers takes each lane from the source its mask names,
/// and is written as AVX-512 writes it: what is left where the mask has
/// nothing is the first source, not what the destination held.
#[verifier::rlimit(40)]
pub proof fn law_blend(insn: Decoded, ev: Ev, c: Canon, scratch: i32, vm: Vm)
    requires
        meaning::between(insn, ev),
        rewrite::spelling(ev) == Some(c),
        c.w == ev.w,
        Vm::blends(results::unmasked(insn, ev, c)),
        ev.map == 2,
        ev.op == 0x64 || ev.op == 0x65,
        ev.z ==> ev.aaa != 0,
        vm.wf(),
    ensures
        ({
            let p = table::generic_outcome(insn, ev, c, scratch)->Thunk_0;
            let after = p.meaning(p.consts, vm);
            &&& table::generic_outcome(insn, ev, c, scratch) is Thunk
            &&& meaning::apart(vm, after, p.temps, ev.reg, p.kscr)
            &&& after.z[ev.reg] == blended(ev, vm.z[ev.vvvv], vm.z[ev.rm], vm.k[ev.aaa])
        }),
{
    broadcast use meaning::lemma_run;

    let d = ev.reg;
    let full = ev.ll == 2;
    let p0 = Prog::start(scratch, insn);
    let fin = table::generic_outcome(insn, ev, c, scratch)->Thunk_0;
    let consts = fin.consts;
    meaning::lemma_start(scratch, insn, ev);
    let vl = ev::vl_lanes(ev.ll, ev.w);
    let keff = if full {
        ev.aaa
    } else {
        p0.kscr
    };
    let p1 = limited(p0, ev);
    lemma_effective(insn, ev, scratch, consts, vm, p1, keff);
    let before = p1.meaning(consts, vm);
    let m = Mvex { k: keff, ..results::unmasked(insn, ev, c) };
    let p2 = p1.mvex(c.map, c.pp, c.w, c.op, d, ev.vvvv, Rm::Reg(ev.rm), keff, 0, m.imm);
    let ran = p2.meaning(consts, vm);
    assert(ran == before.mvex(consts, m));
    assert(ran.z[d] == meaning::merged(vm.z[ev.vvvv], vm.z[ev.rm], keff, before.k[keff], ev.w));
    let p3 = if ev.z {
        meaning::lemma_zero(
            p2.step(Step::K).vexk(0x44, p0.kscr, keff),
            consts,
            vm,
            d,
            p0.kscr,
            ev.w,
        );
        p2.step(Step::K).vexk(0x44, p0.kscr, keff).zero(d, p0.kscr, ev.w)
    } else {
        p2
    };
    if !full {
        let up = ev::upper(ev.ll);
        meaning::lemma_mask_imm(p3, consts, vm, up);
        meaning::lemma_zero(p3.mask_imm(up), consts, vm, d, p0.kscr, 0);
    }
    let after = fin.meaning(consts, vm);
    let new = blended(ev, vm.z[ev.vvvv], vm.z[ev.rm], vm.k[ev.aaa]);
    assert forall|i: int| 0 <= i < 16 implies #[trigger] after.z[d][i] == new[i] by {
        let j: int = if ev.w == 0 { i } else { i / 2 };
        meaning::lemma_lanes(i as u16);
        meaning::lemma_lanes(j as u16);
        meaning::lemma_bits(vl, vm.k[ev.aaa], j as u16);
        meaning::lemma_bits(before.k[keff], 0, j as u16);
        assert(meaning::selects(before, keff, j) == (meaning::bit(vl, j) && (ev.aaa == 0
            || meaning::bit(vm.k[ev.aaa], j))));
    }
    assert(after.z[d] =~= new);
}

} // verus!
