//! What the rewritten vcvtps2pd computes under a mask, in the model of
//! [`crate::xlate::card`].
use crate::xlate::card;
use crate::xlate::card::Card;
use crate::xlate::code::Mvex;
use crate::xlate::ev;
use crate::xlate::ev::Ev;
use crate::xlate::insn::Decoded;
use crate::xlate::meaning;
use crate::xlate::meaning::Vm;
use crate::xlate::prog::{Prog, Step};
use crate::xlate::results;
use crate::xlate::rewrite;
use crate::xlate::table;
use crate::xlate::table::Canon;
use vstd::prelude::*;

verus! {

/// vcvtps2pd under a write mask, its source a register or a float broadcast
/// from memory.
pub open spec fn widens(insn: Decoded, ev: Ev) -> bool {
    &&& ev.map == 1 && ev.pp == 0 && ev.w == 0 && ev.op == 0x5A
    &&& ev.aaa != 0
    &&& insn.has_mem() ==> ev.b
}

/// The lanes that an instruction looks at, in the scratch mask.
proof fn lemma_masked_lanes(p: Prog, consts: Seq<Seq<u8>>, c: Card, lanes: u16, k: u8)
    ensures
        ({
            let before = p.runs(consts, c);
            let after = p.masked_lanes(lanes, k).runs(consts, c);
            &&& after.vm == p.bare().masked_lanes(lanes, k).meaning(consts, before.vm)
            &&& after.flags == before.flags && after.fpu == before.fpu
        }),
{
    let frag = p.bare().masked_lanes(lanes, k);
    let q = p.masked_lanes(lanes, k);
    assert(q.steps =~= p.steps + frag.steps);
    assert forall|i: int| 0 <= i < frag.steps.len() implies card::plain(#[trigger] frag.steps[i]) by {
        assert(card::or_ah().len() == 3);
    }
    card::lemma_fragment(p, q, frag, consts, c);
}

/// What those are.
proof fn lemma_limited(p: Prog, consts: Seq<Seq<u8>>, vm: Vm, lanes: u16, k: u8)
    requires
        p.meaning(consts, vm) == vm,
        k != 0 && k != p.kscr,
    ensures
        ({
            let after = p.masked_lanes(lanes, k).meaning(consts, vm);
            after == (Vm { k: vm.k.insert(p.kscr, lanes & vm.k[k]), gp: after.gp, ..vm })
        }),
{
    broadcast use meaning::lemma_run;

    meaning::lemma_mask_imm(p, consts, vm, lanes);
    let after = p.masked_lanes(lanes, k).meaning(consts, vm);
    assert(after.k =~= vm.k.insert(p.kscr, lanes & vm.k[k]));
}

/// The lanes left alone or zeroed, as the prefix says.
proof fn lemma_settled(p: Prog, consts: Seq<Seq<u8>>, c: Card, ev: Ev, d: u8, keff: u8)
    requires
        !table::writes_mask(ev),
    ensures
        ({
            let before = p.runs(consts, c);
            let after = p.settled(ev, d, keff).runs(consts, c);
            &&& after.vm == p.bare().settled(ev, d, keff).meaning(consts, before.vm)
            &&& after.flags == before.flags && after.fpu == before.fpu
        }),
{
    let frag = p.bare().settled(ev, d, keff);
    let q = p.settled(ev, d, keff);
    assert(q.steps =~= p.steps + frag.steps);
    assert forall|i: int| 0 <= i < frag.steps.len() implies card::plain(#[trigger] frag.steps[i]) by {
        assert(card::or_ah().len() == 3);
    }
    card::lemma_fragment(p, q, frag, consts, c);
}

/// vcvtps2pd under a mask, merging or zeroing, of any length, writes the
/// doubles that the card's full form computes, whatever they are, as AVX-512
/// writes them: the mask selects doubles.
#[verifier::rlimit(40)]
pub proof fn law_masked_widening(insn: Decoded, ev: Ev, c: Canon, scratch: i32, before: Card)
    requires
        meaning::shaped(insn, ev),
        widens(insn, ev),
        meaning::at_hand(before.vm, insn, ev),
        rewrite::spelling(ev) == Some(c),
        before.vm.wf(),
        forall|m: Mvex, o: Seq<u32>, a: Seq<u32>, b: Seq<u32>|
            (#[trigger] (before.vm.alu)(m, o, a, b)).len() == 16,
    ensures
        ({
            let vm = before.vm;
            let p = table::generic_outcome(insn, ev, c, scratch)->Thunk_0;
            let after = p.runs(p.consts, before);
            &&& table::generic_outcome(insn, ev, c, scratch) is Thunk
            &&& meaning::apart(vm, after.vm, p.temps, ev.reg, p.kscr)
            &&& after.flags == before.flags && after.fpu == before.fpu
            &&& after.vm.z[ev.reg] == meaning::written(
                Ev { w: 1, ..ev },
                vm.z[ev.reg],
                vm.computed(
                    results::unmasked(insn, ev, c),
                    vm.z[ev.reg],
                    vm.z[ev.vvvv],
                    meaning::second(vm, insn, ev),
                ),
                vm.k[ev.aaa],
            )
        }),
{
    let vm = before.vm;
    let full = ev.ll == 2;
    let d = ev.reg;
    let m = results::unmasked(insn, ev, c);
    let p0 = Prog::start(scratch, insn);
    let fin = table::generic_outcome(insn, ev, c, scratch)->Thunk_0;
    let consts = fin.consts;
    meaning::lemma_begin(scratch, insn, ev);
    assert(p0.runs(consts, before) == before);
    let vl = ev::vl_lanes(ev.ll, ev.w);
    let keff = if full {
        ev.aaa
    } else {
        p0.kscr
    };
    let p1 = if full {
        p0
    } else {
        p0.masked_lanes(vl, ev.aaa)
    };
    let c1 = p1.runs(consts, before);
    if !full {
        lemma_masked_lanes(p0, consts, before, vl, ev.aaa);
        lemma_limited(p0.bare(), consts, vm, vl, ev.aaa);
    }
    let (rm, sss) = meaning::second_rm(insn, ev);
    let form = Mvex { rm, k: keff, sss, ..m };
    let p2 = p1.step(Step::Mvex(form));
    card::lemma_step(p1, consts, before, Step::Mvex(form));
    let c2 = p2.runs(consts, before);
    let v = vm.computed(m, vm.z[d], vm.z[ev.vvvv], meaning::second(vm, insn, ev));
    reveal(Card::special);
    assert(c2.vm.z == vm.z.insert(d, meaning::merged(vm.z[d], v, keff, c1.vm.k[keff], 1)));
    assert(c2.vm.wf());
    assert(fin == p2.settled(ev, d, keff));
    assert forall|b: int| 0 <= b < 16 && !full implies #[trigger] meaning::bit(c2.vm.k[keff], b)
        == (meaning::bit(vl, b) && meaning::bit(vm.k[ev.aaa], b)) by {
        meaning::lemma_bits(vl, vm.k[ev.aaa], b as u16);
    }
    lemma_settled(p2, consts, before, ev, d, keff);
    results::lemma_settled(p2.bare(), consts, c2.vm, ev, d, keff, vm.z[d], v, vm.k[ev.aaa], 1);
}

} // verus!
