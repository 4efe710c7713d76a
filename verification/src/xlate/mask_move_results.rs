//! What the rewritten moves and tests of masks do, in the model of
//! [`crate::xlate::card`].
use crate::xlate::card;
use crate::xlate::card::Card;
use crate::xlate::code::MemOp;
use crate::xlate::ev::Outcome;
use crate::xlate::insn;
use crate::xlate::insn::Decoded;
use crate::xlate::mask;
use crate::xlate::mask::MaskOp;
use crate::xlate::mask_results;
use crate::xlate::meaning;
use crate::xlate::meaning::Vm;
use crate::xlate::mnemonic as mn;
use crate::xlate::prog::{Prog, Step};
use vstd::prelude::*;

verus! {

/// What the card does with a mask instruction: the sequence it became, or,
/// where it was left in its place, the card's own instruction of that name.
pub open spec fn mask_run(insn: Decoded, bytes: Seq<u8>, scratch: i32, c: Card) -> Card {
    let lost = c.with(c.vm.lost());
    match mask::kops_outcome(insn, bytes, scratch) {
        Outcome::Thunk(p) => p.runs(p.consts, c),
        Outcome::InPlace(_) => match (mask::mask_op(insn.head.mnemonic), insn.k(0), insn.k(1)) {
            (MaskOp::Move, Some(a), Some(b)) => own(c, 0x90, a, b),
            (MaskOp::Move, Some(a), None) => own(c, 0x92, a, (insn::gpr_of(insn.reg(1))->0).0),
            (MaskOp::Move, None, Some(b)) => own(c, 0x93, (insn::gpr_of(insn.reg(0))->0).0, b),
            (MaskOp::Not, Some(a), Some(b)) => own(c, 0x44, a, b),
            (MaskOp::OrTest, Some(a), Some(b)) => own(c, 0x98, a, b),
            _ => lost,
        },
        Outcome::Refused(_) => lost,
    }
}

/// After one of the card's mask instructions.
pub open spec fn own(c: Card, op: u8, reg: u8, rm: u8) -> Card {
    c.step(Seq::empty(), Step::VexK { op, reg, rm })
}

/// The bits of `x` that a move of a mask moves: eight for kmovb, else the
/// sixteen that a mask has.
pub open spec fn moved_bits(m: u16, x: u16) -> u16 {
    if mask::is_byte_mask(m) {
        x & 0xff
    } else {
        x
    }
}

/// Whether nothing but the mask `k`, the scratch mask and what is restored
/// differs.
pub open spec fn only_mask(before: Card, after: Card, k: u8, kscr: u8) -> bool {
    &&& mask_results::only_mask(before.vm, after.vm, k, kscr)
    &&& after.flags == before.flags && after.fpu == before.fpu
}

/// A move between registers, before it is cut.
proof fn lemma_first(p: Prog, consts: Seq<Seq<u8>>, c: Card, op: u8, reg: u8, rm: u8)
    requires
        p.steps.len() == 0,
        op == 0x90 || op == 0x92 || op == 0x93,
        op == 0x92 ==> c.general_value(rm, false) is Some,
    ensures
        ({
            let after = p.vexk(op, reg, rm).runs(consts, c);
            &&& after == own(c, op, reg, rm)
            &&& after.flags == c.flags && after.fpu == c.fpu
            &&& op == 0x90 ==> after.vm == (Vm { k: c.vm.k.insert(reg, c.vm.k[rm]), ..c.vm })
            &&& op == 0x92 ==> after.vm == (Vm {
                k: c.vm.k.insert(reg, ((c.general_value(rm, false)->0).0 % 0x1_0000) as u16),
                ..c.vm
            })
            &&& op == 0x93 ==> after.vm == (Vm {
                gp: after.vm.gp,
                general: after.vm.general,
                ..c.vm
            })
            &&& op == 0x93 ==> after.general_value(reg, true) == Some((c.vm.k[rm] as u32, 0u32))
            &&& op == 0x93 ==> forall|r: u8|
                1 < r && r != reg ==> #[trigger] after.vm.general[r] == c.vm.general[r]
        }),
{
    reveal(Card::special);
    card::lemma_step(p, consts, c, Step::VexK { op, reg, rm });
    assert(p.runs(consts, c) == c);
}

/// kmov between registers. A mask register gets the bits moved of the mask or
/// of the low word of the general register, and nothing else changes. A
/// general register gets those of the mask, zero-extended, and no mask changes.
pub proof fn law_mask_moves(insn: Decoded, bytes: Seq<u8>, scratch: i32, c: Card)
    requires
        mask::mask_op(insn.head.mnemonic) == MaskOp::Move,
        insn.kind(0) == insn::KIND_REGISTER,
        insn.kind(1) == insn::KIND_REGISTER,
        2 <= insn.head.op_count <= 5,
        !(mask::kops_outcome(insn, bytes, scratch) is Refused),
        c.vm.ok,
    ensures
        ({
            let m = insn.head.mnemonic;
            let kscr = Prog::start(scratch, insn).kscr;
            let after = mask_run(insn, bytes, scratch, c);
            match (insn.k(0), insn.k(1)) {
                (Some(k1), Some(k2)) => {
                    &&& only_mask(c, after, k1, kscr)
                    &&& after.vm.k[k1] == moved_bits(m, c.vm.k[k2])
                },
                (Some(k1), None) => insn::gpr_of(insn.reg(1)) matches Some(g) ==> (
                c.general_value(g.0, false) matches Some(v) ==> {
                    &&& only_mask(c, after, k1, kscr)
                    &&& after.vm.k[k1] == moved_bits(m, (v.0 % 0x1_0000) as u16)
                }),
                (None, Some(k2)) => insn::gpr_of(insn.reg(0)) matches Some(g) ==> {
                    &&& after.vm.ok
                    &&& after.vm.z == c.vm.z && after.vm.k == c.vm.k && after.vm.mem == c.vm.mem
                    &&& after.flags == c.flags && after.fpu == c.fpu
                    &&& after.general_value(g.0, true) == Some((c.vm.k[k2] as u32, 0u32))
                    &&& forall|r: u8|
                        1 < r && r != g.0 ==> #[trigger] after.vm.general[r] == c.vm.general[r]
                },
                _ => true,
            }
        }),
{
    let p = Prog::start(scratch, insn);
    let m8 = mask::is_byte_mask(insn.head.mnemonic);
    let thunk = mask::kops_outcome(insn, bytes, scratch) is Thunk;
    let fin = mask::kops_outcome(insn, bytes, scratch)->Thunk_0;
    let consts = if thunk {
        fin.consts
    } else {
        Seq::empty()
    };
    if insn.k(0) is Some {
        let k1 = insn.k(0)->0;
        mask_results::lemma_not_scratch(scratch, insn, 0);
        let (op, rm): (u8, u8) = if insn.k(1) is Some {
            (0x90, insn.k(1)->0)
        } else {
            (0x92, (insn::gpr_of(insn.reg(1))->0).0)
        };
        if op == 0x90 || (insn::gpr_of(insn.reg(1)) is Some && c.general_value(rm, false) is Some) {
            lemma_first(p, consts, c, op, k1, rm);
            let q = p.vexk(op, k1, rm);
            if thunk {
                card::lemma_cut(q, consts, c, k1, m8);
                mask_results::lemma_cut(q.bare(), consts, q.runs(consts, c).vm, k1, m8);
                assert(fin == q.cut(k1, m8));
            }
        }
    } else if insn.k(1) is Some && insn::gpr_of(insn.reg(0)) is Some {
        let g = insn::gpr_of(insn.reg(0))->0;
        lemma_first(p, consts, c, 0x93, g.0, insn.k(1)->0);
        if thunk {
            assert(fin == p.vexk(0x93, g.0, insn.k(1)->0));
        }
    }
}

/// A byte or a word of memory in eax.
proof fn lemma_loaded(c: Card, byte: bool, x: MemOp)
    requires
        byte || (c.vm.addr)(x) % 2 == 0,
    ensures
        ({
            let a = (c.vm.addr)(x);
            let n: int = if byte {
                1
            } else {
                2
            };
            let part = meaning::part((c.vm.mem)(a - a % 4), a, n);
            &&& 0 <= part < 0x1_0000
            &&& c.moved(
                seq![
                    0x0f,
                    if byte {
                        0xb6u8
                    } else {
                        0xb7
                    },
                ],
                x,
            ) == c.with_rax(part as u32, 0)
        }),
{
    reveal(Card::moved);
    let b: Seq<u8> = seq![
        0x0f,
        if byte {
            0xb6u8
        } else {
            0xb7
        },
    ];
    assert(b.len() == 2 && b[0] == 0x0f && b[1] == (if byte {
        0xb6u8
    } else {
        0xb7
    }));
}

/// kmov from memory gives its mask register the byte there, or the low word,
/// and changes nothing else.
pub proof fn law_mask_load(insn: Decoded, bytes: Seq<u8>, scratch: i32, x: MemOp, c: Card)
    requires
        mask::mask_op(insn.head.mnemonic) == MaskOp::Move,
        insn.kind(0) == insn::KIND_REGISTER,
        insn.kind(1) == insn::KIND_MEMORY,
        insn.k(0) is Some,
        MemOp::spec_of(insn) == Some(x),
        mask::is_byte_mask(insn.head.mnemonic) || (c.vm.addr)(x) % 2 == 0,
        mask::kops_outcome(insn, bytes, scratch) is Thunk,
        c.vm.ok,
    ensures
        ({
            let after = mask_run(insn, bytes, scratch, c);
            let k1 = insn.k(0)->0;
            let a = (c.vm.addr)(x);
            let n: int = if mask::is_byte_mask(insn.head.mnemonic) {
                1
            } else {
                2
            };
            &&& only_mask(c, after, k1, k1)
            &&& after.vm.k[k1] == meaning::part((c.vm.mem)(a - a % 4), a, n)
        }),
{
    let p = Prog::start(scratch, insn);
    let fin = mask::kops_outcome(insn, bytes, scratch)->Thunk_0;
    let consts = fin.consts;
    let m8 = mask::is_byte_mask(insn.head.mnemonic);
    let b: Seq<u8> = seq![
        0x0f,
        if m8 {
            0xb6u8
        } else {
            0xb7
        },
    ];
    assert(p.runs(consts, c) == c);
    card::lemma_step(p, consts, c, Step::Rax);
    let p1 = p.step(Step::Rax);
    assert(p1.runs(consts, c) == c);
    lemma_loaded(c.recovered(x), m8, x);
    card::lemma_step(p1, consts, c, Step::Legacy { opcodes: b, m: x });
    let p2 = p1.legacy(b, x);
    assert(p2.runs(consts, c) == c.recovered(x).moved(b, x)) by {
        reveal(Card::special);
    }
    card::lemma_step(p2, consts, c, Step::VexK { op: 0x92, reg: insn.k(0)->0, rm: 0 });
    assert(fin == p2.vexk(0x92, insn.k(0)->0, 0));
}

/// How many bytes kmov moves to memory.
pub open spec fn mask_bytes(m: u16) -> int {
    if m == mn::KMOVB {
        1
    } else if m == mn::KMOVD {
        4
    } else if m == mn::KMOVQ {
        8
    } else {
        2
    }
}

/// kmov to memory writes the byte or the word of the mask there, or the dword
/// or qword it is extended to with zeros, and nothing else of memory; no
/// register changes.
pub proof fn law_mask_store(insn: Decoded, bytes: Seq<u8>, scratch: i32, x: MemOp, c: Card)
    requires
        mask::mask_op(insn.head.mnemonic) == MaskOp::Move,
        insn.kind(0) == insn::KIND_MEMORY,
        insn.kind(1) == insn::KIND_REGISTER,
        insn.k(1) is Some,
        MemOp::spec_of(insn) == Some(x),
        mask_bytes(insn.head.mnemonic) == 2 ==> (c.vm.addr)(x) % 2 == 0,
        mask_bytes(insn.head.mnemonic) >= 4 ==> (c.vm.addr)(x) % 4 == 0,
        mask::kops_outcome(insn, bytes, scratch) is Thunk,
        c.vm.ok,
    ensures
        ({
            let after = mask_run(insn, bytes, scratch, c);
            let n = mask_bytes(insn.head.mnemonic);
            let k = c.vm.k[insn.k(1)->0];
            let a = (c.vm.addr)(x);
            &&& after.vm.ok
            &&& after.vm.z == c.vm.z && after.vm.k == c.vm.k && after.vm.general == c.vm.general
            &&& after.flags == c.flags && after.fpu == c.fpu
            &&& forall|y: int| #[trigger]
                (after.vm.mem)(y) == (if n <= 2 && y == a - a % 4 {
                    card::replaced((c.vm.mem)(y), a, n, k as int % (if n == 1 {
                        0x100
                    } else {
                        0x1_0000
                    }))
                } else if n >= 4 && y == a {
                    k as u32
                } else if n == 8 && y == a + 4 {
                    0
                } else {
                    (c.vm.mem)(y)
                })
        }),
{
    let p = Prog::start(scratch, insn);
    let fin = mask::kops_outcome(insn, bytes, scratch)->Thunk_0;
    let consts = fin.consts;
    let k = c.vm.k[insn.k(1)->0];
    let b = mask::mask_store(insn.head.mnemonic);
    assert(p.runs(consts, c) == c);
    card::lemma_step(p, consts, c, Step::Rax);
    let p1 = p.step(Step::Rax);
    assert(p1.runs(consts, c) == c);
    card::lemma_step(p1, consts, c, Step::VexK { op: 0x93, reg: 0, rm: insn.k(1)->0 });
    let p2 = p1.vexk(0x93, 0, insn.k(1)->0);
    let held = c.with_rax(k as u32, 0);
    assert(p2.runs(consts, c) == held);
    card::lemma_step(p2, consts, c, Step::Legacy { opcodes: b, m: x });
    assert(p2.legacy(b, x).runs(consts, c) == held.recovered(x).moved(b, x)) by {
        reveal(Card::special);
    }
    lemma_stored(held.recovered(x), insn.head.mnemonic, x, k);
    assert(fin == p2.legacy(b, x));
}

/// A mask moved from eax to memory.
proof fn lemma_stored(c: Card, m: u16, x: MemOp, k: u16)
    requires
        c.vm.gp.0 == Some(k as u32),
        c.high.0 == Some(0u32),
        mask_bytes(m) == 2 ==> (c.vm.addr)(x) % 2 == 0,
        mask_bytes(m) >= 4 ==> (c.vm.addr)(x) % 4 == 0,
    ensures
        ({
            let after = c.moved(mask::mask_store(m), x);
            let n = mask_bytes(m);
            let a = (c.vm.addr)(x);
            &&& after == c.with(Vm { mem: after.vm.mem, ..c.vm })
            &&& forall|y: int| #[trigger]
                (after.vm.mem)(y) == (if n <= 2 && y == a - a % 4 {
                    card::replaced((c.vm.mem)(y), a, n, k as int % (if n == 1 {
                        0x100
                    } else {
                        0x1_0000
                    }))
                } else if n >= 4 && y == a {
                    k as u32
                } else if n == 8 && y == a + 4 {
                    0
                } else {
                    (c.vm.mem)(y)
                })
        }),
{
    reveal(Card::moved);
    let b = mask::mask_store(m);
    if m == mn::KMOVB {
        assert(b.len() == 1 && b[0] == 0x88);
    } else if m == mn::KMOVD {
        assert(b.len() == 1 && b[0] == 0x89);
    } else if m == mn::KMOVQ {
        assert(b.len() == 2 && b[0] == 0x48 && b[1] == 0x89);
    } else {
        assert(b.len() == 2 && b[0] == 0x66 && b[1] == 0x89);
    }
}

/// Whether no bit of two masks is set.
pub open spec fn none_set(a: u16, b: u16) -> bool {
    forall|i: int|
        #![trigger meaning::bit(a, i)]
        0 <= i < 16 ==> !meaning::bit(a, i) && !meaning::bit(b, i)
}

/// Whether each bit is set in one of two masks.
pub open spec fn all_set(a: u16, b: u16) -> bool {
    forall|i: int|
        #![trigger meaning::bit(a, i)]
        0 <= i < 16 ==> meaning::bit(a, i) || meaning::bit(b, i)
}

/// kortest sets the zero flag where no bit of the two masks is set, and the
/// carry flag where each of the sixteen bits is set in one of them, and changes
/// nothing else.
pub proof fn law_mask_test(insn: Decoded, bytes: Seq<u8>, scratch: i32, c: Card)
    requires
        mask::mask_op(insn.head.mnemonic) == MaskOp::OrTest,
        insn.k(0) is Some,
        insn.k(1) is Some,
        !(mask::kops_outcome(insn, bytes, scratch) is Refused),
        c.vm.ok,
    ensures
        ({
            let after = mask_run(insn, bytes, scratch, c);
            let (a, b) = (c.vm.k[insn.k(0)->0], c.vm.k[insn.k(1)->0]);
            &&& after == (Card { flags: after.flags, ..c })
            &&& after.flags == (none_set(a, b), all_set(a, b))
        }),
{
    let (a, b) = (c.vm.k[insn.k(0)->0], c.vm.k[insn.k(1)->0]);
    lemma_either(a, b);
    reveal(Card::special);
    if mask::kops_outcome(insn, bytes, scratch) is Thunk {
        let fin = mask::kops_outcome(insn, bytes, scratch)->Thunk_0;
        let p = Prog::start(scratch, insn);
        assert(p.runs(fin.consts, c) == c);
        card::lemma_step(
            p,
            fin.consts,
            c,
            Step::VexK { op: 0x98, reg: insn.k(0)->0, rm: insn.k(1)->0 },
        );
    }
}

/// A mask is zero, or all ones, where every bit of it is.
proof fn lemma_every_bit(c: u16)
    ensures
        (c == 0) == (forall|i: int| 0 <= i < 16 ==> !(#[trigger] meaning::bit(c, i))),
        (c == 0xffff) == (forall|i: int| 0 <= i < 16 ==> #[trigger] meaning::bit(c, i)),
{
    assert((c == 0 <==> ((c >> 0) & 1 != 1 && (c >> 1) & 1 != 1 && (c >> 2) & 1 != 1 &&
        (c >> 3) & 1 != 1 && (c >> 4) & 1 != 1 && (c >> 5) & 1 != 1 && (c >> 6) & 1 != 1 &&
        (c >> 7) & 1 != 1 && (c >> 8) & 1 != 1 && (c >> 9) & 1 != 1 && (c >> 10) & 1 != 1 &&
        (c >> 11) & 1 != 1 && (c >> 12) & 1 != 1 && (c >> 13) & 1 != 1 && (c >> 14) & 1 != 1 &&
        (c >> 15) & 1 != 1))
        && (c == 0xffff <==> ((c >> 0) & 1 == 1 && (c >> 1) & 1 == 1 && (c >> 2) & 1 == 1 &&
        (c >> 3) & 1 == 1 && (c >> 4) & 1 == 1 && (c >> 5) & 1 == 1 && (c >> 6) & 1 == 1 &&
        (c >> 7) & 1 == 1 && (c >> 8) & 1 == 1 && (c >> 9) & 1 == 1 && (c >> 10) & 1 == 1 &&
        (c >> 11) & 1 == 1 && (c >> 12) & 1 == 1 && (c >> 13) & 1 == 1 && (c >> 14) & 1 == 1 &&
        (c >> 15) & 1 == 1))) by (bit_vector);
    assert(meaning::bit(c, 0) == ((c >> 0) & 1 == 1));
    assert(meaning::bit(c, 1) == ((c >> 1) & 1 == 1));
    assert(meaning::bit(c, 2) == ((c >> 2) & 1 == 1));
    assert(meaning::bit(c, 3) == ((c >> 3) & 1 == 1));
    assert(meaning::bit(c, 4) == ((c >> 4) & 1 == 1));
    assert(meaning::bit(c, 5) == ((c >> 5) & 1 == 1));
    assert(meaning::bit(c, 6) == ((c >> 6) & 1 == 1));
    assert(meaning::bit(c, 7) == ((c >> 7) & 1 == 1));
    assert(meaning::bit(c, 8) == ((c >> 8) & 1 == 1));
    assert(meaning::bit(c, 9) == ((c >> 9) & 1 == 1));
    assert(meaning::bit(c, 10) == ((c >> 10) & 1 == 1));
    assert(meaning::bit(c, 11) == ((c >> 11) & 1 == 1));
    assert(meaning::bit(c, 12) == ((c >> 12) & 1 == 1));
    assert(meaning::bit(c, 13) == ((c >> 13) & 1 == 1));
    assert(meaning::bit(c, 14) == ((c >> 14) & 1 == 1));
    assert(meaning::bit(c, 15) == ((c >> 15) & 1 == 1));
    if c == 0 {
        assert forall|i: int| 0 <= i < 16 implies !(#[trigger] meaning::bit(c, i)) by {
            meaning::lemma_bits(0, 0, i as u16);
        }
    }
    if c == 0xffff {
        assert forall|i: int| 0 <= i < 16 implies #[trigger] meaning::bit(c, i) by {
            meaning::lemma_lanes(i as u16);
        }
    }
}

/// So is the mask of the bits of two masks.
#[verifier::spinoff_prover]
proof fn lemma_either(a: u16, b: u16)
    ensures
        (a | b == 0) == none_set(a, b),
        (a | b == 0xffff) == all_set(a, b),
{
    let c = a | b;
    lemma_every_bit(c);
    assert forall|i: int| 0 <= i < 16 implies (#[trigger] meaning::bit(c, i)) == (meaning::bit(a, i)
        || meaning::bit(b, i)) by {
        meaning::lemma_bits(a, b, i as u16);
    }
    if c == 0 {
        assert forall|i: int|
            #![trigger meaning::bit(a, i)]
            0 <= i < 16 implies !meaning::bit(a, i) && !meaning::bit(b, i) by {
            assert(!meaning::bit(c, i));
        }
        assert(none_set(a, b));
    } else {
        let i = choose|i: int| 0 <= i < 16 && meaning::bit(c, i);
        assert(meaning::bit(a, i) || meaning::bit(b, i));
        assert(!none_set(a, b));
    }
    if c == 0xffff {
        assert forall|i: int|
            #![trigger meaning::bit(a, i)]
            0 <= i < 16 implies meaning::bit(a, i) || meaning::bit(b, i) by {
            assert(meaning::bit(c, i));
        }
        assert(all_set(a, b));
    } else {
        let i = choose|i: int| 0 <= i < 16 && !(#[trigger] meaning::bit(c, i));
        assert(!(meaning::bit(a, i) || meaning::bit(b, i)));
        assert(!all_set(a, b));
    }
}

} // verus!
