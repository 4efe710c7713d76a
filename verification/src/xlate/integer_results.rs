//! What the rewritten conversions of scalar floats to integers compute, in the
//! models of [`crate::xlate::card`] and [`crate::xlate::meaning`].
use crate::xlate::card;
use crate::xlate::card::{Card, Fpu};
use crate::xlate::code::{Mvex, Rm, S_CW, S_CW2, S_XFER};
use crate::xlate::convert;
use crate::xlate::ev::Ev;
use crate::xlate::insn;
use crate::xlate::insn::Decoded;
use crate::xlate::meaning;
use crate::xlate::meaning::Vm;
use crate::xlate::memory_results;
use crate::xlate::prog;
use crate::xlate::prog::{Prog, Step};
use crate::xlate::scalar_results;
use vstd::prelude::*;

verus! {

/// Whether `m` converts a float (0) or a double (1) to an integer.
pub open spec fn integer_source(m: u16) -> u8 {
    if convert::from_double(m) {
        1
    } else {
        0
    }
}

/// The transfer slot after the lanes of a register, or lane 0 of it, are
/// stored there.
proof fn lemma_to_slot(p: Prog, consts: Seq<Seq<u8>>, vm: Vm, t: u8, k: u8, n: int)
    requires
        memory_results::selects_first(p.meaning(consts, vm), k, n),
        n >= 1,
    ensures
        ({
            let before = p.meaning(consts, vm);
            let after = p.mvex(2, 1, 0, 0xD0, t, 0, Rm::Fs(S_XFER), k, 0, None).meaning(consts, vm);
            &&& after == (Vm { slot: after.slot, ..before })
            &&& after.slot[0] == before.z[t][0]
            &&& n == 16 ==> after.slot[1] == before.z[t][1]
        }),
{
    broadcast use meaning::lemma_run;

    reveal(Vm::transfer);
    let before = p.meaning(consts, vm);
    let held = Vm { mem: |y: int| before.slot[y / 4], ..before };
    memory_results::lemma_packed(held, true, t, k, 0, n, 0);
    memory_results::lemma_packed(held, true, t, k, 0, n, 4);
    let after = p.mvex(2, 1, 0, 0xD0, t, 0, Rm::Fs(S_XFER), k, 0, None).meaning(consts, vm);
    assert(after.slot == before.filled(t, k));
    assert(before.filled(t, k)[0] == (held.packed(true, t, k, 0))(0));
    assert(before.filled(t, k)[1] == (held.packed(true, t, k, 0))(4));
}

/// Numbers of the conversions: the control word with the bits that truncate,
/// and the halves of 2^31 as a double.
proof fn lemma_numbers(cw: u16)
    ensures
        ((cw as u32 | 0x0c00) % 0x1_0000) as u16 == cw | 0x0c00,
        (convert::F64_TWO31 & 0xffff_ffff) as u32 == 0,
        (convert::F64_TWO31 >> 32) as u32 == 0x41e0_0000,
{
    assert(((cw as u32 | 0x0c00) % 0x1_0000) as u16 == cw | 0x0c00 && (
    0x41e0_0000_0000_0000u64 & 0xffff_ffff) as u32 == 0 && (0x41e0_0000_0000_0000u64 >> 32) as u32
        == 0x41e0_0000) by (bit_vector);
}

/// The control word under which a conversion runs: that of the program, its
/// rounding set to truncate where the instruction does.
pub open spec fn rounding(cw: u16, truncate: bool) -> u16 {
    if truncate {
        cw | 0x0c00
    } else {
        cw
    }
}

/// The control word kept and set.
proof fn lemma_control(c: Card)
    ensures
        ({
            let x = c.fpu;
            &&& c.on_scratch(seq![0xd9], 7, S_CW) == (Card {
                fpu: Fpu { kept: (x.cw, x.kept.1), ..x },
                ..c
            })
            &&& c.on_scratch(seq![0x0f, 0xb7], 0, S_CW) == c.with_rax(x.kept.0 as u32, 0)
            &&& c.vm.gp.0 matches Some(eax) ==> c.on_scratch(seq![0x66, 0x89], 0, S_CW2) == (Card {
                fpu: Fpu { kept: (x.kept.0, (eax % 0x1_0000) as u16), ..x },
                ..c
            })
            &&& c.on_scratch(seq![0xd9], 5, S_CW2) == (Card {
                fpu: Fpu { cw: x.kept.1, ..x },
                ..c
            })
            &&& c.on_scratch(seq![0xd9], 5, S_CW) == (Card {
                fpu: Fpu { cw: x.kept.0, ..x },
                ..c
            })
        }),
{
    reveal(Card::on_scratch);
    let d9: Seq<u8> = seq![0xd9];
    let movzx: Seq<u8> = seq![0x0f, 0xb7];
    let store: Seq<u8> = seq![0x66, 0x89];
    assert(d9.len() == 1 && d9[0] == 0xd9);
    assert(movzx.len() == 2 && movzx[0] == 0x0f && movzx[1] == 0xb7);
    assert(store.len() == 2 && store[0] == 0x66 && store[1] == 0x89);
}

/// `or ah, 12` among the steps.
proof fn lemma_or_ah(p: Prog, consts: Seq<Seq<u8>>, c: Card, eax: u32)
    requires
        p.runs(consts, c).vm.gp.0 == Some(eax),
    ensures
        p.raw(card::or_ah()).runs(consts, c) == p.runs(consts, c).with_rax(eax | 0x0c00, 0),
{
    reveal(Card::special);
    card::lemma_step(p, consts, c, Step::Raw(card::or_ah()));
}

/// The control word that truncates, set once the program's is kept.
spec fn truncating(p: Prog) -> Prog {
    p.step(Step::Flags).fs_op(seq![0xd9], 7, S_CW).fs_op(seq![0x0f, 0xb7], 0, S_CW).raw(
        card::or_ah(),
    ).fs_op(seq![0x66, 0x89], 0, S_CW2).fs_op(seq![0xd9], 5, S_CW2)
}

proof fn lemma_truncating(p: Prog, consts: Seq<Seq<u8>>, c: Card)
    ensures
        ({
            let before = p.runs(consts, c);
            let after = truncating(p).runs(consts, c);
            let cw = before.fpu.cw;
            after == (Card {
                vm: Vm { gp: after.vm.gp, ..before.vm },
                high: after.high,
                fpu: Fpu { cw: cw | 0x0c00, kept: (cw, cw | 0x0c00), ..before.fpu },
                ..before
            })
        }),
{
    let before = p.runs(consts, c);
    let cw = before.fpu.cw;
    lemma_numbers(cw);
    let d9: Seq<u8> = seq![0xd9];
    let movzx: Seq<u8> = seq![0x0f, 0xb7];
    let store: Seq<u8> = seq![0x66, 0x89];
    let pf = p.step(Step::Flags);
    card::lemma_step(p, consts, c, Step::Flags);
    let cf = pf.runs(consts, c);
    let p5 = pf.fs_op(d9, 7, S_CW);
    let c5 = p5.runs(consts, c);
    scalar_results::lemma_fs(pf, consts, c, d9, 7, S_CW);
    lemma_control(cf);
    assert(c5 == (Card { fpu: Fpu { kept: (cw, before.fpu.kept.1), ..before.fpu }, ..cf }));
    let p6 = p5.fs_op(movzx, 0, S_CW);
    let c6 = p6.runs(consts, c);
    scalar_results::lemma_fs(p5, consts, c, movzx, 0, S_CW);
    lemma_control(c5);
    assert(c6 == c5.with_rax(cw as u32, 0));
    let p7 = p6.raw(card::or_ah());
    let c7 = p7.runs(consts, c);
    lemma_or_ah(p6, consts, c, cw as u32);
    assert(c7 == c6.with_rax(cw as u32 | 0x0c00, 0));
    let p8 = p7.fs_op(store, 0, S_CW2);
    let c8 = p8.runs(consts, c);
    scalar_results::lemma_fs(p7, consts, c, store, 0, S_CW2);
    lemma_control(c7);
    assert(c8 == (Card { fpu: Fpu { kept: (cw, cw | 0x0c00), ..before.fpu }, ..c7 }));
    scalar_results::lemma_fs(p8, consts, c, d9, 5, S_CW2);
    lemma_control(c8);
}

/// The sequence that puts the float in a register into the transfer slot.
spec fn in_slot(p: Prog, s: u8, w: u8) -> Prog {
    p.temp().vmov(p.next_temp(), Rm::Reg(s), 0, w).mvex(
        2,
        1,
        0,
        0xD0,
        p.next_temp(),
        0,
        Rm::Fs(S_XFER),
        0,
        0,
        None,
    )
}

/// The float in a register in the transfer slot.
proof fn lemma_in_slot(p: Prog, consts: Seq<Seq<u8>>, vm: Vm, s: u8, w: u8)
    requires
        p.meaning(consts, vm).wf(),
        p.temp().temps == p.temps.push(p.next_temp()),
    ensures
        ({
            let before = p.meaning(consts, vm);
            let q = in_slot(p, s, w);
            let after = q.meaning(consts, vm);
            &&& q.temps == p.temps.push(p.next_temp()) && q.kscr == p.kscr
            &&& after == (Vm {
                z: before.z.insert(p.next_temp(), before.z[s]),
                slot: after.slot,
                ..before
            })
            &&& after.slot[0] == before.z[s][0] && after.slot[1] == before.z[s][1]
        }),
{
    let t = p.next_temp();
    let p1 = p.temp();
    meaning::lemma_temp(p, consts, vm);
    meaning::lemma_vmov(p1, consts, vm, t, Rm::Reg(s), w);
    let p2 = p1.vmov(t, Rm::Reg(s), 0, w);
    lemma_to_slot(p2, consts, vm, t, 0, 16);
}

/// x87's conversion, once the float is in the transfer slot.
spec fn converted(p: Prog, w: u8, truncate: bool) -> Prog {
    let p = p.fs_op(
        seq![
            if w == 1 {
                0xddu8
            } else {
                0xd9u8
            },
        ],
        0,
        S_XFER,
    );
    if truncate {
        truncating(p).fs_op(seq![0xdf], 7, S_XFER).fs_op(seq![0xd9], 5, S_CW)
    } else {
        p.fs_op(seq![0xdf], 7, S_XFER)
    }
}

/// It leaves the integer in the transfer slot, and the control word as it was.
proof fn lemma_converted(
    p: Prog,
    consts: Seq<Seq<u8>>,
    c: Card,
    w: u8,
    truncate: bool,
    v: (u32, u32),
)
    requires
        w <= 1,
        p.runs(consts, c).vm.slot[0] == v.0,
        w == 1 ==> p.runs(consts, c).vm.slot[1] == v.1,
        w == 0 ==> v.1 == 0,
    ensures
        ({
            let before = p.runs(consts, c);
            let after = converted(p, w, truncate).runs(consts, c);
            let n = (before.fpu.integral)(w, v, rounding(before.fpu.cw, truncate));
            &&& after.vm == (Vm { slot: after.vm.slot, gp: after.vm.gp, ..before.vm })
            &&& after.flags == before.flags && after.fpu.cw == before.fpu.cw
            &&& after.vm.slot[0] == n.0 && after.vm.slot[1] == n.1
        }),
{
    let before = p.runs(consts, c);
    let fld: Seq<u8> = seq![
        if w == 1 {
            0xddu8
        } else {
            0xd9u8
        },
    ];
    let d9: Seq<u8> = seq![0xd9];
    let df: Seq<u8> = seq![0xdf];
    let p4 = p.fs_op(fld, 0, S_XFER);
    let c4 = p4.runs(consts, c);
    scalar_results::lemma_fs(p, consts, c, fld, 0, S_XFER);
    scalar_results::lemma_transfers(before, w);
    if truncate {
        let p9 = truncating(p4);
        let c9 = p9.runs(consts, c);
        lemma_truncating(p4, consts, c);
        let p10 = p9.fs_op(df, 7, S_XFER);
        let c10 = p10.runs(consts, c);
        scalar_results::lemma_fs(p9, consts, c, df, 7, S_XFER);
        scalar_results::lemma_transfers(c9, w);
        scalar_results::lemma_fs(p10, consts, c, d9, 5, S_CW);
        lemma_control(c10);
    } else {
        scalar_results::lemma_fs(p4, consts, c, df, 7, S_XFER);
        scalar_results::lemma_transfers(c4, w);
    }
}

/// The card's conversion of floats, or of doubles, to integers, with the
/// rounding of the immediate.
pub open spec fn card_conversion(r: u8, s: u8, double: bool, truncate: bool) -> Mvex {
    Mvex {
        map: 3,
        pp: if double {
            3
        } else {
            1
        },
        w: if double {
            1
        } else {
            0
        },
        op: if double {
            0xE6
        } else {
            0xCB
        },
        reg: r,
        vvvv: 0,
        rm: Rm::Reg(s),
        k: 0,
        sss: 0,
        imm: Some(
            if truncate {
                3
            } else {
                0
            },
        ),
    }
}

/// Whether a float, or a double (1), is not below 2^31 or is no number.
pub open spec fn not_below(w: u8, v: (u32, u32)) -> bool {
    let (x, limit) = if w == 1 {
        (v.0 + v.1 * 0x1_0000_0000, convert::F64_TWO31 as int)
    } else {
        (v.0 as int, convert::F32_TWO31 as int)
    };
    meaning::fulfils(5, meaning::relation(w, x, limit))
}

/// The integer a scalar becomes where the card's conversion gives `converted`:
/// the integer indefinite if the scalar is not below 2^31 or is no number.
pub open spec fn integer_of(w: u8, v: (u32, u32), converted: u32) -> u32 {
    if not_below(w, v) {
        convert::INDEFINITE
    } else {
        converted
    }
}

/// 2^31 in every element, as floats or as doubles.
pub open spec fn limits(double: bool) -> Seq<u32> {
    Seq::new(
        16,
        |i: int|
            if !double {
                convert::F32_TWO31
            } else if i % 2 == 0 {
                (convert::F64_TWO31 & 0xffff_ffff) as u32
            } else {
                (convert::F64_TWO31 >> 32) as u32
            },
    )
}

/// The constant of those.
spec fn limit_bytes(double: bool) -> Seq<u8> {
    if double {
        prog::splat64(convert::F64_TWO31)
    } else {
        prog::splat32(convert::F32_TWO31)
    }
}

proof fn lemma_limits(double: bool)
    ensures
        meaning::words(limit_bytes(double)) == limits(double),
        limits(double).len() == 16,
        double ==> meaning::element(limits(double), 1, 0) == convert::F64_TWO31 as int,
{
    lemma_numbers(0);
    meaning::lemma_words(limits(double));
    let plain = Seq::new(16, |i: int| convert::F32_TWO31);
    let halves = Seq::new(
        16,
        |i: int|
            if i % 2 == 0 {
                (convert::F64_TWO31 & 0xffff_ffff) as u32
            } else {
                (convert::F64_TWO31 >> 32) as u32
            },
    );
    if double {
        assert(halves =~= limits(double));
    } else {
        assert(plain =~= limits(double));
    }
}

/// The compare with 2^31.
spec fn limit_test(k: u8, s: u8, i: usize, w: u8) -> Mvex {
    Mvex {
        map: 1,
        pp: w,
        w,
        op: 0xC2,
        reg: k,
        vvvv: s,
        rm: Rm::Const(i),
        k: 0,
        sss: 0,
        imm: Some(5),
    }
}

/// The compare of a scalar with 2^31 marks lane 0 where it is not below it or
/// is no number.
proof fn lemma_marked(
    p: Prog,
    consts: Seq<Seq<u8>>,
    vm: Vm,
    s: u8,
    i: usize,
    double: bool,
)
    requires
        p.meaning(consts, vm).wf(),
        i < consts.len(),
        consts[i as int] == limit_bytes(double),
        p.kscr != 0,
    ensures
        ({
            let before = p.meaning(consts, vm);
            let w: u8 = if double {
                1
            } else {
                0
            };
            let q = p.step(Step::K).compare(p.kscr, s, Rm::Const(i), 5, 0, w);
            let after = q.meaning(consts, vm);
            let v = (before.z[s][0], before.z[s][1]);
            &&& after == (Vm {
                k: before.k.insert(p.kscr, after.k[p.kscr]),
                gp: after.gp,
                ..before
            })
            &&& meaning::bit(after.k[p.kscr], 0) == not_below(w, v)
        }),
{
    let before = p.meaning(consts, vm);
    let w: u8 = if double {
        1
    } else {
        0
    };
    lemma_limits(double);
    let p1 = p.step(Step::K);
    let m1 = p1.meaning(consts, vm);
    assert(m1 == (Vm { gp: (None, before.gp.1), ..before })) by {
        broadcast use meaning::lemma_run;

    }
    let test = limit_test(p.kscr, s, i, w);
    scalar_results::lemma_mvex(p1, consts, vm, test);
    let m2 = p1.step(Step::Mvex(test)).meaning(consts, vm);
    assert(m1.operand(consts, Rm::Const(i)) == Some(limits(double)));
    let marks = m1.compared(test, m1.z[s], limits(double));
    assert(m2 == (Vm { k: m1.k.insert(p.kscr, marks), ..m1 }));
    let f = |i: int| meaning::selects(m1, 0, i) && Vm::found(test, m1.z[s], limits(double), i);
    meaning::lemma_mask_where(f, 16, 0);
    assert(marks == meaning::mask_where(f, 16));
    assert(meaning::bit(marks, 0) == f(0));
}

/// A constant moved into the lanes that a mask selects.
proof fn lemma_constant_move(
    p: Prog,
    consts: Seq<Seq<u8>>,
    vm: Vm,
    r: u8,
    i: usize,
    k: u8,
)
    requires
        p.meaning(consts, vm).wf(),
        i < consts.len(),
        consts[i as int] == prog::splat32(convert::INDEFINITE),
        k != 0,
    ensures
        ({
            let before = p.meaning(consts, vm);
            let after = p.vmov(r, Rm::Const(i), k, 0).meaning(consts, vm);
            &&& after == (Vm { z: before.z.insert(r, after.z[r]), ..before })
            &&& after.wf()
            &&& after.z[r][0] == (if meaning::bit(before.k[k], 0) {
                convert::INDEFINITE
            } else {
                before.z[r][0]
            })
        }),
{
    broadcast use meaning::lemma_run;

    let inds = Seq::new(16, |i: int| convert::INDEFINITE);
    meaning::lemma_words(inds);
    let before = p.meaning(consts, vm);
    assert(before.operand(consts, Rm::Const(i)) == Some(inds));
}

/// Lane 0 of `r` becomes the integer indefinite where its scalar is not below
/// 2^31 or is no number.
proof fn lemma_indefinite(
    p: Prog,
    consts: Seq<Seq<u8>>,
    vm: Vm,
    r: u8,
    s: u8,
    double: bool,
    v: (u32, u32),
)
    requires
        p.consts == Seq::<Seq<u8>>::empty(),
        consts == convert::indefinite_above(p, r, s, double).consts,
        p.meaning(consts, vm).wf(),
        p.meaning(consts, vm).z[s][0] == v.0,
        double ==> p.meaning(consts, vm).z[s][1] == v.1,
        p.kscr != 0,
    ensures
        ({
            let before = p.meaning(consts, vm);
            let q = convert::indefinite_above(p, r, s, double);
            let after = q.meaning(consts, vm);
            let w: u8 = if double {
                1
            } else {
                0
            };
            &&& q.temps == p.temps && q.kscr == p.kscr
            &&& after == (Vm {
                z: before.z.insert(r, after.z[r]),
                k: before.k.insert(p.kscr, after.k[p.kscr]),
                gp: after.gp,
                ..before
            })
            &&& after.wf()
            &&& after.z[r][0] == integer_of(w, v, before.z[r][0])
        }),
{
    let w: u8 = if double {
        1
    } else {
        0
    };
    let big = limit_bytes(double);
    let ind = prog::splat32(convert::INDEFINITE);
    let i0 = p.index_of(big);
    let p1 = p.constant(big);
    assert(i0 == 0 && p1.consts =~= seq![big]);
    let p2 = p1.step(Step::K).compare(p.kscr, s, Rm::Const(i0), 5, 0, w);
    meaning::lemma_found(p2.consts, ind, 0);
    let i1 = p2.index_of(ind);
    assert(consts == p2.constant(ind).consts);
    assert(consts[0] == big && i1 < consts.len() && consts[i1 as int] == ind);
    assert(p1.meaning(consts, vm) == p.meaning(consts, vm));
    lemma_marked(p1, consts, vm, s, i0, double);
    let p3 = p2.constant(ind);
    assert(p3.meaning(consts, vm) == p2.meaning(consts, vm));
    lemma_constant_move(p3, consts, vm, r, i1, p.kscr);
    assert(convert::indefinite_above(p, r, s, double) == p3.vmov(r, Rm::Const(i1), p.kscr, 0));
}

/// The card's conversion of the scalar in a register leaves its integer, or
/// the integer indefinite, in the transfer slot.
proof fn lemma_fixpoint(
    p: Prog,
    consts: Seq<Seq<u8>>,
    vm: Vm,
    s: u8,
    double: bool,
    truncate: bool,
    v: (u32, u32),
)
    requires
        p.consts == Seq::<Seq<u8>>::empty(),
        consts == convert::fixpoint_to_int(p, s, double, truncate).consts,
        p.meaning(consts, vm).wf(),
        p.meaning(consts, vm).z[s][0] == v.0,
        double ==> p.meaning(consts, vm).z[s][1] == v.1,
        p.temp().temps == p.temps.push(p.next_temp()),
        p.next_temp() != s,
        p.kscr != 0,
    ensures
        ({
            let before = p.meaning(consts, vm);
            let q = convert::fixpoint_to_int(p, s, double, truncate);
            let after = q.meaning(consts, vm);
            let t = p.next_temp();
            let w: u8 = if double {
                1
            } else {
                0
            };
            let card = before.computed(
                card_conversion(t, s, double, truncate),
                before.z[t],
                before.z[0],
                before.z[s],
            );
            &&& q.temps == p.temps.push(t) && q.kscr == p.kscr
            &&& after.ok && after.mem == before.mem
            &&& after.general == before.general
            &&& forall|k: u8| k != p.kscr ==> #[trigger] after.k[k] == before.k[k]
            &&& after.z == before.z.insert(t, after.z[t])
            &&& after.slot[0] == integer_of(w, v, card[0])
        }),
{
    let form = card_conversion(p.next_temp(), s, double, truncate);
    let t = p.next_temp();
    let p1 = p.temp();
    meaning::lemma_temp(p, consts, vm);
    let p2 = p1.step(Step::Mvex(form));
    scalar_results::lemma_plain(p1, consts, vm, form, s);
    let m2 = p2.meaning(consts, vm);
    let p3 = convert::indefinite_above(p2, t, s, double);
    lemma_indefinite(p2, consts, vm, t, s, double, v);
    let m3 = p3.meaning(consts, vm);
    meaning::lemma_mask_imm(p3, consts, vm, 1);
    let p4 = p3.mask_imm(1);
    let m4 = p4.meaning(consts, vm);
    assert forall|i: int| 0 <= i < 16 implies #[trigger] meaning::bit(m4.k[p.kscr], i) == (i < 1) by {
        meaning::lemma_lanes(i as u16);
    }
    lemma_to_slot(p4, consts, vm, t, p.kscr, 1);
    assert(convert::fixpoint_to_int(p, s, double, truncate) == p4.mvex(
        2,
        1,
        0,
        0xD0,
        t,
        0,
        Rm::Fs(S_XFER),
        p.kscr,
        0,
        None,
    ));
}

/// A general register loaded from the transfer slot.
proof fn lemma_result(p: Prog, consts: Seq<Seq<u8>>, c: Card, r: u8, wide: bool)
    ensures
        ({
            let before = p.runs(consts, c);
            let high = if wide {
                before.vm.slot[1]
            } else {
                0
            };
            p.gpr_result(r, wide, S_XFER).runs(consts, c) == before.with(
                Vm {
                    general: before.vm.general.insert(r, (before.vm.slot[0], high)),
                    ..before.vm
                },
            )
        }),
{
    reveal(Card::special);
    card::lemma_step(p, consts, c, Step::Tail { r, wide, off: S_XFER });
}

/// The steps up to the transfer slot are ones that [`Vm`] has.
proof fn lemma_plain_steps(insn: Decoded, ev: Ev, scratch: i32, double: bool, truncate: bool)
    ensures
        ({
            let p0 = Prog::start(scratch, insn);
            let w: u8 = if double {
                1
            } else {
                0
            };
            let p = convert::scalar_staged(p0, insn, w);
            let s = convert::scalar_source(p0, insn, ev);
            let q = in_slot(p, s, w);
            let f = convert::fixpoint_to_int(p, s, double, truncate);
            &&& p0.steps.len() == 0
            &&& forall|i: int| 0 <= i < q.steps.len() ==> card::plain(#[trigger] q.steps[i])
            &&& forall|i: int| 0 <= i < f.steps.len() ==> card::plain(#[trigger] f.steps[i])
        }),
{
    assert(card::or_ah().len() == 3);
}

/// The conversions of a float to an integer give their general register the
/// integer of lane 0 of the source: a 64-bit or an unsigned one is what x87
/// stores of it, whatever that is, truncating where the instruction does; a
/// signed 32-bit one is what the card's conversion gives, or the integer
/// indefinite where the float is not below 2^31 or is no number. A 32-bit one
/// is extended with zeros. The control word is as it was, and so are the
/// flags, memory and the vector and mask registers but the temporaries and
/// the scratch mask.
#[verifier::rlimit(60)]
pub proof fn law_to_scalar_integer(insn: Decoded, ev: Ev, scratch: i32, g: (u8, bool), c: Card)
    requires
        meaning::shaped(insn, ev),
        convert::to_int(insn.head.mnemonic),
        insn::gpr_of(insn.reg(0)) == Some(g),
        scalar_results::scalar_at_hand(c.vm, insn, ev, integer_source(insn.head.mnemonic)),
        c.vm.wf(),
    ensures
        ({
            let m = insn.head.mnemonic;
            let w = integer_source(m);
            let p = convert::to_int_outcome(insn, ev, scratch)->Thunk_0;
            let after = p.runs(p.consts, c);
            let p0 = Prog::start(scratch, insn);
            let staged = convert::scalar_staged(p0, insn, w).meaning(p.consts, c.vm);
            let s = convert::scalar_source(p0, insn, ev);
            let t = convert::scalar_staged(p0, insn, w).next_temp();
            let v = scalar_results::source_scalar(c.vm, insn, ev, w);
            let n = (c.fpu.integral)(w, v, rounding(c.fpu.cw, convert::truncates(m)));
            let card = c.vm.computed(
                card_conversion(t, s, w == 1, convert::truncates(m)),
                staged.z[t],
                staged.z[0],
                staged.z[s],
            );
            &&& convert::to_int_outcome(insn, ev, scratch) is Thunk
            &&& after.vm.ok && after.vm.mem == c.vm.mem
            &&& after.flags == c.flags && after.fpu.cw == c.fpu.cw
            &&& forall|r: u8| !p.temps.contains(r) ==> #[trigger] after.vm.z[r] == c.vm.z[r]
            &&& forall|k: u8| k != p.kscr ==> #[trigger] after.vm.k[k] == c.vm.k[k]
            &&& after.vm.general == c.vm.general.insert(
                g.0,
                if g.1 {
                    n
                } else if convert::to_unsigned(m) {
                    (n.0, 0)
                } else {
                    (integer_of(w, v, card[0]), 0)
                },
            )
        }),
{
    let m = insn.head.mnemonic;
    let w = integer_source(m);
    let double = convert::from_double(m);
    let truncate = convert::truncates(m);
    let fin = convert::to_int_outcome(insn, ev, scratch)->Thunk_0;
    let consts = fin.consts;
    let p0 = Prog::start(scratch, insn);
    scalar_results::lemma_scalar_staged(insn, ev, scratch, consts, c.vm, w);
    let p = convert::scalar_staged(p0, insn, w);
    let s = convert::scalar_source(p0, insn, ev);
    let t = p.next_temp();
    let v = scalar_results::source_scalar(c.vm, insn, ev, w);
    lemma_plain_steps(insn, ev, scratch, double, truncate);
    assert(p0.runs(consts, c) == c);
    assert forall|r: u8| p.temps.contains(r) implies #[trigger] p.temps.push(t).contains(r) by {
        let i = choose|i: int| 0 <= i < p.temps.len() && p.temps[i] == r;
        assert(p.temps.push(t)[i] == r);
    }
    assert(p.temps.push(t).contains(t)) by {
        assert(p.temps.push(t).last() == t);
    }
    if g.1 || convert::to_unsigned(m) {
        let q = in_slot(p, s, w);
        lemma_in_slot(p, consts, c.vm, s, w);
        assert(q.steps =~= p0.steps + q.steps);
        card::lemma_fragment(p0, q, q, consts, c);
        lemma_converted(q, consts, c, w, truncate, v);
        let r = converted(q, w, truncate);
        assert(r == convert::x87_to_int(p, s, double, truncate));
        lemma_result(r, consts, c, g.0, g.1);
        assert(fin == r.gpr_result(g.0, g.1, S_XFER));
    } else {
        let q = convert::fixpoint_to_int(p, s, double, truncate);
        assert(fin == q.gpr_result(g.0, false, S_XFER));
        lemma_fixpoint(p, consts, c.vm, s, double, truncate, v);
        assert(q.steps =~= p0.steps + q.steps);
        card::lemma_fragment(p0, q, q, consts, c);
        lemma_result(q, consts, c, g.0, false);
    }
}

} // verus!
