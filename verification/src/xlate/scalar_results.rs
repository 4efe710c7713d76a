//! What the rewritten scalar conversions of integers to floats, and between
//! floats and doubles, compute, in the models of [`crate::xlate::card`] and
//! [`crate::xlate::meaning`].
use crate::xlate::card;
use crate::xlate::card::{Card, Fpu, Top};
use crate::xlate::code::{MemOp, Mvex, Rm, S_XFER};
use crate::xlate::convert;
use crate::xlate::ev::Ev;
use crate::xlate::insn;
use crate::xlate::insn::Decoded;
use crate::xlate::lane_results;
use crate::xlate::laws;
use crate::xlate::meaning;
use crate::xlate::meaning::Vm;
use crate::xlate::memory_results;
use crate::xlate::mnemonic as mn;
use crate::xlate::prog::{Prog, Step};
use vstd::prelude::*;

verus! {

/// Whether `m` converts an unsigned integer to a float.
pub open spec fn from_unsigned(m: u16) -> bool {
    m == mn::VCVTUSI2SS || m == mn::VCVTUSI2SD
}

/// Whether `m` converts an integer to a float (0) or to a double (1).
pub open spec fn float_width(m: u16) -> u8 {
    if m == mn::VCVTSI2SD || m == mn::VCVTUSI2SD {
        1
    } else {
        0
    }
}

/// The integer that an instruction converts, as a qword: the one of its
/// operand, or its dword extended with its sign or with zeros.
pub open spec fn source_integer(c: Card, insn: Decoded) -> Option<(u32, u32)> {
    let signed = !from_unsigned(insn.head.mnemonic);
    match MemOp::spec_of(insn) {
        Some(x) => {
            let a = (c.vm.addr)(x);
            let low = (c.vm.mem)(a);
            if a % 4 != 0 {
                None
            } else if convert::qword_sized(insn.mem.size) {
                Some((low, (c.vm.mem)(a + 4)))
            } else {
                Some((low, card::extension(low, signed)))
            }
        },
        None => match insn::gpr_of(insn.reg(2)) {
            Some(g) => match c.general_value(g.0, g.1) {
                Some(v) => Some(
                    if g.1 {
                        v
                    } else {
                        (v.0, card::extension(v.0, signed))
                    },
                ),
                None => None,
            },
            None => None,
        },
    }
}

/// A dword and the dword it is extended by are the qword of the same signed
/// number, or of the same unsigned one.
pub proof fn law_extension(x: u32)
    ensures
        card::extension(x, true) as u64 * 0x1_0000_0000 + x as u64 == (x as i32 as i64) as u64,
        card::extension(x, false) as u64 * 0x1_0000_0000 + x as u64 == x as u64,
{
    assert((x < 0x8000_0000 ==> (x as i32 as i64) as u64 == x as u64) && (x >= 0x8000_0000 ==> (
    x as i32 as i64) as u64 == 0xffff_ffff_0000_0000 + x as u64)) by (bit_vector);
}

/// The bytes by which a general register is extended into rax.
proof fn lemma_extend_bytes(r: u8, unsigned: bool)
    requires
        r < 16,
    ensures
        card::extending(convert::int_extend(r, unsigned)) == Some((r, !unsigned)),
        convert::int_extend(r, unsigned)[0] != 0x80,
{
    assert(0xc0u8 | (r & 7) == 0xc0 + r % 8 && 0x48u8 | ((r >> 3) & 1) == 0x48 + r / 8)
        by (bit_vector)
        requires
            r < 16,
    ;
    let b = convert::int_extend(r, unsigned);
    if !unsigned {
        assert(b.len() == 3 && b[0] == 0x48 + r / 8 && b[1] == 0x63 && b[2] == 0xc0 + r % 8);
    } else if r >= 8 {
        assert(b.len() == 3 && b[0] == 0x41 && b[1] == 0x8b && b[2] == 0xc0 + r % 8);
    } else {
        assert(b.len() == 2 && b[0] == 0x8b && b[1] == 0xc0 + r % 8);
    }
}

/// A general register extended into rax.
proof fn lemma_extend(r: u8, unsigned: bool, c: Card)
    requires
        r < 16,
        c.general_value(r, false) is Some,
    ensures
        ({
            let x = (c.general_value(r, false)->0).0;
            &&& !card::plain(Step::Raw(convert::int_extend(r, unsigned)))
            &&& c.extended(convert::int_extend(r, unsigned)) == c.with_rax(
                x,
                card::extension(x, !unsigned),
            )
        }),
{
    lemma_extend_bytes(r, unsigned);
    assert(card::or_ah()[0] == 0x80);
}

/// An integer of memory in rax.
proof fn lemma_int_load(c: Card, wide: bool, unsigned: bool, x: MemOp)
    requires
        (c.vm.addr)(x) % 4 == 0,
    ensures
        ({
            let low = (c.vm.mem)((c.vm.addr)(x));
            c.moved(convert::int_load(wide, unsigned), x) == c.with_rax(
                low,
                if wide {
                    (c.vm.mem)((c.vm.addr)(x) + 4)
                } else {
                    card::extension(low, !unsigned)
                },
            )
        }),
{
    reveal(Card::moved);
    let b = convert::int_load(wide, unsigned);
    if wide {
        assert(b.len() == 2 && b[0] == 0x48 && b[1] == 0x8b);
    } else if unsigned {
        assert(b.len() == 1 && b[0] == 0x8b);
    } else {
        assert(b.len() == 2 && b[0] == 0x48 && b[1] == 0x63);
    }
}

/// The sequence that puts the integer into the transfer slot.
spec fn handed_over(p: Prog, insn: Decoded) -> Prog {
    let unsigned = from_unsigned(insn.head.mnemonic);
    let reg = insn::gpr_of(insn.reg(2))->0;
    match MemOp::spec_of(insn) {
        Some(x) => p.step(Step::Rax).legacy(
            convert::int_load(convert::qword_sized(insn.mem.size), unsigned),
            x,
        ).gpr_scratch(0, true, S_XFER, true),
        None => if reg.1 {
            p.gpr_scratch(reg.0, true, S_XFER, true)
        } else {
            p.step(Step::Rax).raw(convert::int_extend(reg.0, unsigned)).gpr_scratch(
                0,
                true,
                S_XFER,
                true,
            )
        },
    }
}

/// The integer handed over is the one the instruction converts.
proof fn lemma_handed_over(p: Prog, insn: Decoded, consts: Seq<Seq<u8>>, c: Card)
    requires
        p.steps.len() == 0,
        c.vm.ok,
        convert::from_int(insn.head.mnemonic),
        source_integer(c, insn) is Some,
        MemOp::spec_of(insn) is Some && from_unsigned(insn.head.mnemonic)
            ==> !convert::qword_sized(insn.mem.size),
        MemOp::spec_of(insn) is None ==> insn::gpr_of(insn.reg(2)) is Some,
    ensures
        ({
            let after = handed_over(p, insn).runs(consts, c);
            let v = source_integer(c, insn)->0;
            &&& after == (Card {
                vm: Vm { slot: after.vm.slot, gp: after.vm.gp, ..c.vm },
                high: after.high,
                ..c
            })
            &&& after.vm.slot[0] == v.0 && after.vm.slot[1] == v.1
        }),
{
    let unsigned = from_unsigned(insn.head.mnemonic);
    let v = source_integer(c, insn)->0;
    assert(p.runs(consts, c) == c);
    card::lemma_step(p, consts, c, Step::Rax);
    let p1 = p.step(Step::Rax);
    assert(p1.runs(consts, c) == c);
    reveal(Card::special);
    match MemOp::spec_of(insn) {
        Some(x) => {
            let wide = convert::qword_sized(insn.mem.size);
            let b = convert::int_load(wide, unsigned);
            lemma_int_load(c.recovered(x), wide, unsigned, x);
            card::lemma_step(p1, consts, c, Step::Legacy { opcodes: b, m: x });
            let p2 = p1.legacy(b, x);
            assert(p2.runs(consts, c) == c.recovered(x).with_rax(v.0, v.1));
            card::lemma_step(
                p2,
                consts,
                c,
                Step::Gpr { r: 0, wide: true, off: S_XFER, store: true },
            );
        },
        None => {
            let g = insn::gpr_of(insn.reg(2))->0;
            if g.1 {
                card::lemma_step(
                    p,
                    consts,
                    c,
                    Step::Gpr { r: g.0, wide: true, off: S_XFER, store: true },
                );
            } else {
                let b = convert::int_extend(g.0, unsigned);
                lemma_extend(g.0, unsigned, c);
                card::lemma_step(p1, consts, c, Step::Raw(b));
                let p2 = p1.raw(b);
                assert(p2.runs(consts, c) == c.with_rax(v.0, v.1));
                card::lemma_step(
                    p2,
                    consts,
                    c,
                    Step::Gpr { r: 0, wide: true, off: S_XFER, store: true },
                );
            }
        },
    }
}

/// One instruction on the scratch area.
pub proof fn lemma_fs(p: Prog, consts: Seq<Seq<u8>>, c: Card, opcodes: Seq<u8>, reg: u8, off: i32)
    ensures
        p.fs_op(opcodes, reg, off).runs(consts, c) == p.runs(consts, c).on_scratch(
            opcodes,
            reg,
            off,
        ),
{
    reveal(Card::special);
    card::lemma_step(p, consts, c, Step::FsOp { opcodes, reg, off });
}

/// x87's loads and stores on the transfer slot.
pub proof fn lemma_transfers(c: Card, w: u8)
    requires
        w <= 1,
    ensures
        ({
            let op: u8 = if w == 1 {
                0xdd
            } else {
                0xd9
            };
            let x = c.fpu;
            let high = if w == 1 {
                c.vm.slot[1]
            } else {
                0
            };
            &&& c.on_scratch(seq![0xdf], 5, S_XFER) == (Card {
                fpu: Fpu { top: Top::Integer(c.vm.slot[0], c.vm.slot[1]), ..x },
                ..c
            })
            &&& c.on_scratch(seq![op], 0, S_XFER) == (Card {
                fpu: Fpu { top: Top::Float(w, c.vm.slot[0], high), ..x },
                ..c
            })
            &&& x.top matches Top::Integer(lo, hi) ==> c.on_scratch(seq![op], 3, S_XFER) == (Card {
                fpu: Fpu { top: Top::Empty, ..x },
                ..c.with_slot((x.floated)(w, (lo, hi), x.cw), w == 1)
            })
            &&& x.top matches Top::Float(f, lo, hi) ==> c.on_scratch(seq![0xdf], 7, S_XFER) == (
            Card {
                fpu: Fpu { top: Top::Empty, ..x },
                ..c.with_slot((x.integral)(f, (lo, hi), x.cw), true)
            })
        }),
{
    reveal(Card::on_scratch);
    let op: u8 = if w == 1 {
        0xdd
    } else {
        0xd9
    };
    assert(seq![op].len() == 1 && seq![op][0] == op);
    assert(seq![0xdfu8].len() == 1 && seq![0xdfu8][0] == 0xdf);
}

/// One vector instruction among the steps.
pub proof fn lemma_mvex(p: Prog, consts: Seq<Seq<u8>>, vm: Vm, m: Mvex)
    ensures
        p.step(Step::Mvex(m)).meaning(consts, vm) == p.meaning(consts, vm).mvex(consts, m),
{
    broadcast use meaning::lemma_run;

}

/// An instruction between registers without a mask.
pub proof fn lemma_plain(p: Prog, consts: Seq<Seq<u8>>, vm: Vm, m: Mvex, s: u8)
    requires
        p.meaning(consts, vm).wf(),
        m.rm == Rm::Reg(s),
        m.k == 0,
        m.sss == 0,
        !Vm::uses_mask(m),
    ensures
        ({
            let before = p.meaning(consts, vm);
            let after = p.step(Step::Mvex(m)).meaning(consts, vm);
            let d = Vm::dest(m);
            let v = before.computed(m, before.z[d], before.z[m.vvvv], before.z[s]);
            &&& meaning::put(before, after, d)
            &&& after.wf()
            &&& forall|i: int| 0 <= i < 16 ==> #[trigger] after.z[d][i] == v[i]
        }),
{
    lemma_mvex(p, consts, vm, m);
}

/// A move between registers under a mask.
proof fn lemma_masked_move(p: Prog, consts: Seq<Seq<u8>>, vm: Vm, d: u8, r: u8, k: u8, w: u8)
    requires
        p.meaning(consts, vm).wf(),
        w <= 1,
    ensures
        ({
            let before = p.meaning(consts, vm);
            let after = p.vmov(d, Rm::Reg(r), k, w).meaning(consts, vm);
            &&& after == (Vm {
                z: before.z.insert(
                    d,
                    meaning::merged(before.z[d], before.z[r], k, before.k[k], w),
                ),
                ..before
            })
            &&& after.wf()
        }),
{
    broadcast use meaning::lemma_run;

}

/// An element of the transfer slot broadcast under a mask.
proof fn lemma_slot_load(p: Prog, consts: Seq<Seq<u8>>, c: Card, d: u8, k: u8, w: u8)
    requires
        p.runs(consts, c).vm.wf(),
        w <= 1,
    ensures
        ({
            let before = p.runs(consts, c);
            let after = p.broadcast_load(d, Rm::Fs(S_XFER), k, w).runs(consts, c);
            let v = card::both(w, before.vm.slot[0], before.vm.slot[1]);
            let new = meaning::merged(before.vm.z[d], v, k, before.vm.k[k], w);
            &&& after == before.with(Vm { z: before.vm.z.insert(d, new), ..before.vm })
            &&& after.vm.wf()
        }),
{
    reveal(Card::special);
    meaning::lemma_fields(0, 0);
    let m = Mvex {
        map: 2,
        pp: 1,
        w,
        op: 0x18u8 | w,
        reg: d,
        vvvv: 0,
        rm: Rm::Fs(S_XFER),
        k,
        sss: 0,
        imm: None,
    };
    assert(card::from_slot(m));
    card::lemma_step(p, consts, c, Step::Mvex(m));
}

/// The conversions of an integer to a float hand x87 the integer that the
/// instruction converts, extended to a qword. Lane 0 of the destination gets
/// the float that x87 stores of it, whatever that is; the rest of the low 128
/// bits comes from the first source, and above them is zero.
#[verifier::rlimit(40)]
pub proof fn law_from_integer(insn: Decoded, ev: Ev, scratch: i32, c: Card)
    requires
        insn.head.op_count <= 5,
        convert::from_int(insn.head.mnemonic),
        convert::from_int_outcome(insn, ev, scratch) is Thunk,
        source_integer(c, insn) is Some,
        c.vm.wf(),
    ensures
        ({
            let p = convert::from_int_outcome(insn, ev, scratch)->Thunk_0;
            let after = p.runs(p.consts, c);
            let w = float_width(insn.head.mnemonic);
            let v = (c.fpu.floated)(w, source_integer(c, insn)->0, c.fpu.cw);
            &&& meaning::apart(c.vm, after.vm, p.temps, ev.reg, p.kscr)
            &&& after.flags == c.flags
            &&& after.fpu == (Fpu { top: Top::Empty, ..c.fpu })
            &&& forall|i: int|
                0 <= i < 16 ==> #[trigger] after.vm.z[ev.reg][i] == (if i >= 4 {
                    0
                } else if i >= memory_results::scalar_dwords(w) {
                    c.vm.z[ev.vvvv][i]
                } else if i == 0 {
                    v.0
                } else {
                    v.1
                })
        }),
{
    let fin = convert::from_int_outcome(insn, ev, scratch)->Thunk_0;
    let consts = fin.consts;
    let w = float_width(insn.head.mnemonic);
    let d = ev.reg;
    let p0 = Prog::start(scratch, insn);
    laws::law_scratch_mask(scratch, insn);
    let p1 = handed_over(p0, insn);
    lemma_handed_over(p0, insn, consts, c);
    let c1 = p1.runs(consts, c);
    let q = source_integer(c, insn)->0;
    let v = (c.fpu.floated)(w, q, c.fpu.cw);
    let fild: Seq<u8> = seq![0xdf];
    let fstp: Seq<u8> = seq![
        if w == 1 {
            0xddu8
        } else {
            0xd9u8
        },
    ];
    let p2 = p1.fs_op(fild, 5, S_XFER);
    let c2 = p2.runs(consts, c);
    lemma_fs(p1, consts, c, fild, 5, S_XFER);
    lemma_transfers(c1, w);
    assert(c2 == (Card { fpu: Fpu { top: Top::Integer(q.0, q.1), ..c.fpu }, ..c1 }));
    let p3 = p2.fs_op(fstp, 3, S_XFER);
    let c3 = p3.runs(consts, c);
    lemma_fs(p2, consts, c, fstp, 3, S_XFER);
    lemma_transfers(c2, w);
    assert(c3 == (Card { fpu: Fpu { top: Top::Empty, ..c.fpu }, ..c2.with_slot(v, w == 1) }));
    card::lemma_mask_imm(p3, consts, c, 1);
    let p4 = p3.mask_imm(1);
    let c4 = p4.runs(consts, c);
    lemma_slot_load(p4, consts, c, d, p1.kscr, w);
    let p5 = p4.broadcast_load(d, Rm::Fs(S_XFER), p1.kscr, w);
    let m5 = p5.runs(consts, c).vm;
    assert(fin == p5.scalar_rest(d, ev.vvvv, w));
    card::lemma_scalar_rest(p5, consts, c, d, ev.vvvv, w);
    assert forall|i: int| 0 <= i < 4 implies #[trigger] m5.z[d][i] == (if i
        >= memory_results::scalar_dwords(w) {
        c.vm.z[d][i]
    } else if i == 0 {
        v.0
    } else {
        v.1
    }) by {
        let j: int = if w == 0 {
            i
        } else {
            i / 2
        };
        meaning::lemma_lanes(j as u16);
    }
    assert(forall|i: int|
        0 <= i < 16 ==> m5.z[ev.vvvv][i] == (if ev.vvvv == d {
            #[trigger] m5.z[d][i]
        } else {
            c.vm.z[ev.vvvv][i]
        }));
}

/// The scalar an instruction converts, of a float or of a double (1), by its
/// dwords.
pub open spec fn source_scalar(vm: Vm, insn: Decoded, ev: Ev, w: u8) -> (u32, u32) {
    let (low, high) = match MemOp::spec_of(insn) {
        Some(x) => ((vm.mem)((vm.addr)(x)), (vm.mem)((vm.addr)(x) + 4)),
        None => (vm.z[ev.rm][0], vm.z[ev.rm][1]),
    };
    (
        low,
        if w == 1 {
            high
        } else {
            0
        },
    )
}

/// Whether that scalar is in a register the instruction names, or in memory on
/// its boundary.
pub open spec fn scalar_at_hand(vm: Vm, insn: Decoded, ev: Ev, w: u8) -> bool {
    match MemOp::spec_of(insn) {
        Some(x) => (vm.addr)(x) % 4 == 0 && (w == 1 ==> (vm.addr)(x) % 8 == 0),
        None => meaning::named(insn, ev.rm),
    }
}

/// The scalar brought into a register, and the temporary that is then free.
pub proof fn lemma_scalar_staged(
    insn: Decoded,
    ev: Ev,
    scratch: i32,
    consts: Seq<Seq<u8>>,
    vm: Vm,
    w: u8,
)
    requires
        meaning::shaped(insn, ev),
        scalar_at_hand(vm, insn, ev, w),
        w <= 1,
        vm.wf(),
    ensures
        ({
            let p0 = Prog::start(scratch, insn);
            let p = convert::scalar_staged(p0, insn, w);
            let s = convert::scalar_source(p0, insn, ev);
            let before = p.meaning(consts, vm);
            let v = source_scalar(vm, insn, ev, w);
            &&& before == (Vm { z: before.z, gp: before.gp, ..vm })
            &&& before.wf()
            &&& before.z[s][0] == v.0
            &&& w == 1 ==> before.z[s][1] == v.1
            &&& forall|r: u8| !p.temps.contains(r) ==> #[trigger] before.z[r] == vm.z[r]
            &&& p.temp().temps == p.temps.push(p.next_temp())
            &&& p.next_temp() != s
            &&& p.consts == p0.consts && p.kscr == p0.kscr && p.kscr != 0
            &&& p0.consts == Seq::<Seq<u8>>::empty()
        }),
{
    let p0 = Prog::start(scratch, insn);
    meaning::lemma_begin(scratch, insn, ev);
    assert(p0.meaning(consts, vm) == vm);
    if let Some(x) = MemOp::spec_of(insn) {
        let t = p0.next_temp();
        meaning::lemma_temp(p0, consts, vm);
        memory_results::lemma_broadcast_load(p0.temp(), consts, vm, t, x, 0, w);
        let p = convert::scalar_staged(p0, insn, w);
        let before = p.meaning(consts, vm);
        assert(p.temps[0] == t);
        assert(p.temps.contains(t));
    }
}

/// The card's conversion between floats and doubles, to doubles (1) or to
/// floats.
pub open spec fn width_conversion(r: u8, s: u8, widens: bool) -> Mvex {
    Mvex {
        map: 1,
        pp: if widens {
            0
        } else {
            1
        },
        w: if widens {
            0
        } else {
            1
        },
        op: 0x5A,
        reg: r,
        vvvv: 0,
        rm: Rm::Reg(s),
        k: 0,
        sss: 0,
        imm: None,
    }
}

/// vcvtss2sd and vcvtsd2ss give lane 0 what the card's conversion of the
/// vector whose lane 0 is the scalar gives there, whatever it computes; the
/// rest of the low 128 bits comes from the first source, and above them is
/// zero.
#[verifier::rlimit(60)]
pub proof fn law_scalar_width(insn: Decoded, ev: Ev, scratch: i32, vm: Vm)
    requires
        meaning::shaped(insn, ev),
        scalar_at_hand(
            vm,
            insn,
            ev,
            if insn.head.mnemonic == mn::VCVTSS2SD {
                0
            } else {
                1
            },
        ),
        meaning::named(insn, ev.vvvv),
        meaning::named(insn, ev.reg),
        vm.wf(),
    ensures
        ({
            let widens = insn.head.mnemonic == mn::VCVTSS2SD;
            let w: u8 = if widens {
                0
            } else {
                1
            };
            let p = convert::float_to_float(insn, ev, scratch);
            let after = p.meaning(p.consts, vm);
            let p0 = Prog::start(scratch, insn);
            let staged = convert::scalar_staged(p0, insn, w).meaning(p.consts, vm);
            let s = convert::scalar_source(p0, insn, ev);
            let r = convert::scalar_staged(p0, insn, w).next_temp();
            let card = vm.computed(
                width_conversion(r, s, widens),
                staged.z[r],
                staged.z[0],
                staged.z[s],
            );
            let v = source_scalar(vm, insn, ev, w);
            &&& staged.z[s][0] == v.0
            &&& w == 1 ==> staged.z[s][1] == v.1
            &&& meaning::apart(vm, after, p.temps, ev.reg, p.kscr)
            &&& forall|i: int|
                0 <= i < 16 ==> #[trigger] after.z[ev.reg][i] == (if i >= 4 {
                    0
                } else if i >= memory_results::scalar_dwords((1 - w) as u8) {
                    vm.z[ev.vvvv][i]
                } else {
                    card[i]
                })
        }),
{
    let widens = insn.head.mnemonic == mn::VCVTSS2SD;
    let w: u8 = if widens {
        0
    } else {
        1
    };
    let to: u8 = (1 - w) as u8;
    let d = ev.reg;
    let fin = convert::float_to_float(insn, ev, scratch);
    let consts = fin.consts;
    let p0 = Prog::start(scratch, insn);
    meaning::lemma_begin(scratch, insn, ev);
    lemma_scalar_staged(insn, ev, scratch, consts, vm, w);
    let p = convert::scalar_staged(p0, insn, w);
    let s = convert::scalar_source(p0, insn, ev);
    let r = p.next_temp();
    let before = p.meaning(consts, vm);
    let form = width_conversion(r, s, widens);
    let p1 = p.temp();
    meaning::lemma_temp(p, consts, vm);
    let p2 = p1.step(Step::Mvex(form));
    let m2 = p2.meaning(consts, vm);
    let card = vm.computed(form, before.z[r], before.z[0], before.z[s]);
    lemma_plain(p1, consts, vm, form, s);
    assert(fin == p2.scalar_result(d, r, ev.vvvv, to));
    meaning::lemma_mask_imm(p2, consts, vm, 1);
    let p3 = p2.mask_imm(1).vmov(d, Rm::Reg(r), p2.kscr, to);
    let m3 = p3.meaning(consts, vm);
    lemma_masked_move(p2.mask_imm(1), consts, vm, d, r, p2.kscr, to);
    lane_results::lemma_scalar_rest(p3, consts, vm, d, ev.vvvv, to);
    assert forall|q: u8| #[trigger] meaning::named(insn, q) implies q != r && !p.temps.contains(
        q,
    ) by {}
    assert(p.temps.push(r).contains(r)) by {
        assert(p.temps.push(r).last() == r);
    }
    assert forall|q: u8| p.temps.contains(q) implies #[trigger] p.temps.push(r).contains(q) by {
        let i = choose|i: int| 0 <= i < p.temps.len() && p.temps[i] == q;
        assert(p.temps.push(r)[i] == q);
    }
    assert forall|i: int| 0 <= i < 4 implies #[trigger] m3.z[d][i] == (if i
        >= memory_results::scalar_dwords(to) {
        vm.z[d][i]
    } else {
        card[i]
    }) by {
        let j: int = if to == 0 {
            i
        } else {
            i / 2
        };
        meaning::lemma_lanes(j as u16);
    }
}

} // verus!
