//! What holds of every rewrite: what an instruction kept in place keeps, and
//! what an out-of-line sequence leaves as it found it, names and refers to
//! once it is laid out.
use crate::bits;
use crate::mvex::encode;
use crate::mvex::encode::{Map0, Opcode, Pp};
use crate::mvex::reg::{Mem, Src, Zmm, K};
use crate::xlate::code;
use crate::xlate::code::{
    Body, Fixup, FixupKind, Thunk, SCRATCH_BYTES, S_CW, S_CW2, S_FLAGS, S_GPR, S_K, S_RAX, S_RCX,
    S_XFER, ZMM_SLOTS,
};
use crate::xlate::ev;
use crate::xlate::insn;
use crate::xlate::insn::Decoded;
use crate::xlate::layout;
use crate::xlate::mnemonic as mn;
use crate::xlate::prog;
use crate::xlate::prog::{Low, Prog, Step};
use crate::xlate::rewrite;
use crate::xlate::translate;
use vstd::prelude::*;

verus! {

/// An instruction kept in place keeps its length and every byte but two: in
/// P1 bit 2 is cleared, and in P2 the low half, which holds V' and the write
/// mask, is kept. So its opcode, its registers and its mask are what they
/// were.
pub proof fn law_in_place(bytes: Seq<u8>, len: int, broadcast: bool)
    requires
        6 <= len <= bytes.len(),
    ensures
        rewrite::in_place(bytes, len, broadcast).len() == len,
        forall|i: int| 0 <= i < len && i != 2 && i != 3 ==> #[trigger] rewrite::in_place(
            bytes,
            len,
            broadcast,
        )[i] == bytes[i],
        rewrite::in_place(bytes, len, broadcast)[2] == bytes[2] & !4u8,
        rewrite::in_place(bytes, len, broadcast)[3] & 0x0f == bytes[3] & 0x0f,
        ({
            let was = ev::parsed(bytes);
            let is = ev::parsed(rewrite::in_place(bytes, len, broadcast));
            &&& is.map == was.map && is.pp == was.pp && is.w == was.w && is.op == was.op
            &&& is.modrm == was.modrm && is.reg == was.reg && is.vvvv == was.vvvv
            &&& is.rm == was.rm && is.is_reg_rm == was.is_reg_rm && is.aaa == was.aaa
            &&& is.b == broadcast
        }),
{
    let p1 = bytes[2];
    let p2 = bytes[3];
    let top: u8 = if broadcast {
        0x10
    } else {
        0
    };
    assert((p1 & 0xfb) == p1 & !4u8 && (p1 & 0xfb) & 3 == p1 & 3 && (p1 & 0xfb) >> 7 == p1 >> 7
        && (!(p1 & 0xfb) >> 3) & 0xf == (!p1 >> 3) & 0xf) by (bit_vector);
    assert((top | (p2 & 0x0f)) & 0x0f == p2 & 0x0f && (top | (p2 & 0x0f)) & 7 == p2 & 7 && (!(top
        | (p2 & 0x0f)) >> 3) & 1 == (!p2 >> 3) & 1 && (((top | (p2 & 0x0f)) >> 4) & 1 == 1) == (top
        == 0x10)) by (bit_vector)
        requires
            top == 0 || top == 0x10,
    ;
}

/// Whether the patches of a body are in order: each within its instruction,
/// which ends before the next one's begins.
pub open spec fn orderly(b: Body) -> bool {
    &&& forall|i: int| 0 <= i < b.fixups.len() ==> (#[trigger] b.fixups[i]).disp_at + 4
        <= b.fixups[i].insn_end <= b.seq.len()
    &&& forall|i: int, j: int|
        0 <= i < j < b.fixups.len() ==> (#[trigger] b.fixups[i]).insn_end <= (
        #[trigger] b.fixups[j]).disp_at
}

/// Whether every constant the patches refer to is one of the first `n`.
pub open spec fn refers_within(b: Body, n: nat) -> bool {
    forall|i: int| 0 <= i < b.fixups.len() ==> ((#[trigger] b.fixups[i]).what matches FixupKind::Const(
        c,
    ) ==> c < n)
}

/// A body with one more step is longer, and in order where it was.
#[verifier::rlimit(30)]
proof fn lemma_step(low: Low, scratch: i32, kscr: u8, s: Step, n: nat)
    requires
        low.after(scratch, kscr, s).body.seq.len() <= usize::MAX,
        s matches Step::Mvex(m) ==> m.rm.within(n),
    ensures
        low.body.seq.len() <= low.after(scratch, kscr, s).body.seq.len(),
        orderly(low.body) ==> orderly(low.after(scratch, kscr, s).body),
        refers_within(low.body, n) ==> refers_within(low.after(scratch, kscr, s).body, n),
{
}

/// The body of the steps is in order, and refers to no constant the steps do
/// not name.
proof fn lemma_lowered(scratch: i32, kscr: u8, steps: Seq<Step>, n: nat)
    requires
        prog::lowered(scratch, kscr, steps).body.seq.len() <= usize::MAX,
        prog::names_within(steps, n),
    ensures
        orderly(prog::lowered(scratch, kscr, steps).body),
        refers_within(prog::lowered(scratch, kscr, steps).body, n),
    decreases steps.len(),
{
    if steps.len() > 0 {
        let before = prog::lowered(scratch, kscr, steps.drop_last());
        assert(prog::names_within(steps.drop_last(), n)) by {
            assert forall|i: int| 0 <= i < steps.len() - 1 implies ((
            #[trigger] steps.drop_last()[i]) matches Step::Mvex(m) ==> m.rm.within(n)) by {
                assert(steps.drop_last()[i] == steps[i]);
            }
        }
        assert(steps.last() == steps[steps.len() - 1]);
        lemma_step(before, scratch, kscr, steps.last(), n);
        lemma_lowered(scratch, kscr, steps.drop_last(), n);
    }
}

/// Bytes appended change no patch.
pub open spec fn extends(b: Body, a: Body) -> bool {
    b.fixups == a.fixups && a.seq.is_prefix_of(b.seq)
}

proof fn lemma_raw(b: Body, bytes: Seq<u8>)
    ensures
        extends(b.raw(bytes), b),
{
}

proof fn lemma_extends(c: Body, b: Body, a: Body)
    requires
        extends(c, b),
        extends(b, a),
    ensures
        extends(c, a),
{
    assert forall|i: int| 0 <= i < a.seq.len() implies a.seq[i] == c.seq[i] by {
        assert(a.seq[i] == b.seq[i]);
    }
}

proof fn lemma_reloaded(b: Body, scratch: i32, temps: Seq<u8>)
    ensures
        extends(prog::reloaded(b, scratch, temps), b),
    decreases temps.len(),
{
    if temps.len() > 0 {
        let one = b.raw(prog::slot_move(0x28, temps.last(), temps.len() - 1).bytes(scratch));
        lemma_raw(b, prog::slot_move(0x28, temps.last(), temps.len() - 1).bytes(scratch));
        lemma_reloaded(one, scratch, temps.drop_last());
        lemma_extends(prog::reloaded(b, scratch, temps), one, b);
    }
}

proof fn lemma_tail(b: Body, scratch: i32, tail: Seq<(u8, bool, i32)>)
    ensures
        extends(prog::tail_loaded(b, scratch, tail), b),
    decreases tail.len(),
{
    if tail.len() > 0 {
        let t = tail.last();
        let before = prog::tail_loaded(b, scratch, tail.drop_last());
        lemma_tail(b, scratch, tail.drop_last());
        lemma_raw(before, code::gpr_bytes(scratch, t.0, t.1, t.2, false));
        lemma_extends(prog::tail_loaded(b, scratch, tail), before, b);
    }
}

/// What a sequence does is followed by its restores: finishing it changes
/// nothing of what the steps emitted and patches nothing.
pub proof fn law_restores_follow(low: Low, scratch: i32, kscr: u8, temps: Seq<u8>)
    ensures
        extends(low.finished(scratch, kscr, temps), low.body),
{
    let b0 = prog::reloaded(low.body, scratch, temps);
    lemma_reloaded(low.body, scratch, temps);
    let flags = code::gpr_bytes(scratch, 0, true, S_FLAGS, false);
    let b1 = if low.flags {
        b0.raw(flags).raw(seq![0x04, 0x7f, 0x9e])
    } else {
        b0
    };
    lemma_raw(b0, flags);
    lemma_raw(b0.raw(flags), seq![0x04, 0x7f, 0x9e]);
    lemma_extends(b0.raw(flags).raw(seq![0x04, 0x7f, 0x9e]), b0.raw(flags), b0);
    lemma_extends(b1, b0, low.body);
    let k = code::gpr_bytes(scratch, 0, true, S_K, false);
    let kmov = code::vexk_bytes(0x92, kscr, 0);
    let b2 = if low.k {
        b1.raw(k).raw(kmov)
    } else {
        b1
    };
    lemma_raw(b1, k);
    lemma_raw(b1.raw(k), kmov);
    lemma_extends(b1.raw(k).raw(kmov), b1.raw(k), b1);
    lemma_extends(b2, b1, low.body);
    let rcx = code::gpr_bytes(scratch, 1, true, S_RCX, false);
    let b3 = if low.rcx {
        b2.raw(rcx)
    } else {
        b2
    };
    lemma_raw(b2, rcx);
    lemma_extends(b3, b2, low.body);
    let rax = code::gpr_bytes(scratch, 0, true, S_RAX, false);
    let b4 = if low.rax {
        b3.raw(rax)
    } else {
        b3
    };
    lemma_raw(b3, rax);
    lemma_extends(b4, b3, low.body);
    lemma_tail(b4, scratch, low.tail);
    lemma_extends(prog::tail_loaded(b4, scratch, low.tail), b4, low.body);
}

/// The patches of every sequence are in order, and refer to constants it has.
pub proof fn law_patches(p: Prog)
    requires
        p.sound(),
        p.body().seq.len() <= usize::MAX,
    ensures
        orderly(p.body()),
        refers_within(p.body(), p.consts.len()),
{
    reveal(Prog::sound);
    let low = p.low();
    law_restores_follow(low, p.scratch, p.kscr, p.temps);
    lemma_lowered(p.scratch, p.kscr, p.steps, p.consts.len());
}

/// Every sequence can be laid out, wherever it ends within the address
/// space.
pub proof fn law_thunk_fits(p: Prog, t: Thunk, at: int, next: int)
    requires
        p.sound(),
        t.body() == p.body(),
        t.constants() == p.consts,
        t.seq@.len() <= usize::MAX,
        at + layout::unpatched(t, at, next).len() <= u64::MAX,
    ensures
        layout::fits(t, at, next),
{
    law_patches(p);
    assert(t.fixups@ == p.body().fixups);
    assert(t.consts@.len() == p.consts.len());
    lemma_consts_after(layout::with_return(t, at, next), at, t.constants());
    assert forall|i: int| 0 <= i < t.fixups@.len() implies (#[trigger] t.fixups@[i]).disp_at + 4
        <= layout::unpatched(t, at, next).len() by {
        assert(t.fixups@[i] == p.body().fixups[i]);
    }
    assert forall|i: int| 0 <= i < t.fixups@.len() implies ((
    #[trigger] t.fixups@[i]).what matches FixupKind::Const(c) ==> c < t.consts@.len()) by {
        assert(t.fixups@[i] == p.body().fixups[i]);
    }
}

/// Constants are appended: what stands before them stays.
proof fn lemma_consts_after(t: Seq<u8>, at: int, consts: Seq<Seq<u8>>)
    ensures
        t.is_prefix_of(layout::with_consts(t, at, consts)),
    decreases consts.len(),
{
    if consts.len() > 0 {
        lemma_consts_after(t, at, consts.drop_last());
        let before = layout::with_consts(t, at, consts.drop_last());
        assert forall|i: int| 0 <= i < t.len() implies t[i] == layout::with_consts(t, at, consts)[i] by {
            assert(t[i] == before[i]);
        }
    }
}

/// The jump that stands at `at` goes to `to`: its displacement, counted from
/// its end, leads there, exactly where the two are less than 2 GiB apart.
pub proof fn law_jump(at: int, to: int)
    ensures
        layout::jump(at, to).len() == 5,
        (at + 5 + layout::displacement(to, at + 5)) % 0x1_0000_0000 == to % 0x1_0000_0000,
        -0x8000_0000 <= to - (at + 5) < 0x8000_0000 ==> at + 5 + signed32(
            layout::displacement(to, at + 5),
        ) == to,
{
    let d = to - (at + 5);
    assert((at + 5 + d % 0x1_0000_0000) % 0x1_0000_0000 == to % 0x1_0000_0000) by {
        assert((at + 5 + d) % 0x1_0000_0000 == (at + 5 + d % 0x1_0000_0000) % 0x1_0000_0000);
    }
}

/// A 32-bit displacement as the processor takes it: signed.
pub open spec fn signed32(d: u32) -> int {
    if d < 0x8000_0000 {
        d as int
    } else {
        d - 0x1_0000_0000
    }
}

/// The replacement of a site is as long as the instruction it replaces, or
/// as the jump where that is longer.
pub proof fn law_site_length(site: int, at: int, len: int)
    ensures
        layout::site_bytes(site, at, len).len() == (if len > 5 {
            len
        } else {
            5
        }),
        layout::site_bytes(site, at, len).take(5) == layout::jump(site, at),
        forall|i: int|
            5 <= i < layout::site_bytes(site, at, len).len() ==> #[trigger] layout::site_bytes(
                site,
                at,
                len,
            )[i] == 0x90,
{
    assert(layout::site_bytes(site, at, len).take(5) =~= layout::jump(site, at));
}

/// Patching in order: the words at the first `n` patches are theirs, and
/// everything else is as it was.
proof fn lemma_patched(
    image: Seq<u8>,
    at: int,
    fixups: Seq<Fixup>,
    addr: spec_fn(FixupKind) -> int,
    n: int,
)
    requires
        0 <= n <= fixups.len(),
        forall|i: int| 0 <= i < fixups.len() ==> (#[trigger] fixups[i]).disp_at + 4
            <= fixups[i].insn_end <= image.len(),
        forall|i: int, j: int|
            0 <= i < j < fixups.len() ==> (#[trigger] fixups[i]).insn_end <= (
            #[trigger] fixups[j]).disp_at,
    ensures
        layout::with_fixups(image, at, fixups, addr, n).len() == image.len(),
        forall|k: int|
            0 <= k < image.len() && (forall|i: int|
                0 <= i < n ==> !((#[trigger] fixups[i]).disp_at <= k < fixups[i].disp_at + 4))
                ==> #[trigger] layout::with_fixups(image, at, fixups, addr, n)[k] == image[k],
        forall|i: int|
            0 <= i < n ==> bits::word32(
                layout::with_fixups(image, at, fixups, addr, n),
                (#[trigger] fixups[i]).disp_at as int,
            ) == layout::displacement(addr(fixups[i].what), at + fixups[i].insn_end),
    decreases n,
{
    if n > 0 {
        lemma_patched(image, at, fixups, addr, n - 1);
        let f = fixups[n - 1];
        let before = layout::with_fixups(image, at, fixups, addr, n - 1);
        let x = layout::displacement(addr(f.what), at + f.insn_end);
        let after = layout::with_fixups(image, at, fixups, addr, n);
        let d = f.disp_at as int;
        assert(after == layout::patched32(before, d, x));
        bits::lemma_word32(x);
        assert(after[d] == bits::le32(x)[0] && after[d + 1] == bits::le32(x)[1] && after[d + 2]
            == bits::le32(x)[2] && after[d + 3] == bits::le32(x)[3]);
        assert forall|i: int| 0 <= i < n implies bits::word32(
            after,
            (#[trigger] fixups[i]).disp_at as int,
        ) == layout::displacement(addr(fixups[i].what), at + fixups[i].insn_end) by {
            if i < n - 1 {
                let e = fixups[i].disp_at as int;
                assert(fixups[i].insn_end <= f.disp_at);
                assert(after[e] == before[e] && after[e + 1] == before[e + 1] && after[e + 2]
                    == before[e + 2] && after[e + 3] == before[e + 3]);
            }
        }
        assert forall|k: int|
            0 <= k < image.len() && (forall|i: int|
                0 <= i < n ==> !((#[trigger] fixups[i]).disp_at <= k < fixups[i].disp_at
                    + 4)) implies #[trigger] after[k] == image[k] by {
            assert(!(fixups[n - 1].disp_at <= k < fixups[n - 1].disp_at + 4));
            assert(before[k] == image[k]);
        }
    }
}

/// Once a sequence is laid out at `at`, every displacement that depended on
/// where it landed leads from the end of its instruction to what it refers
/// to; the jump after the sequence leads to `next`; and no other byte of the
/// sequence is changed.
pub proof fn law_laid_out(p: Prog, t: Thunk, at: int, next: int)
    requires
        p.sound(),
        t.body() == p.body(),
        t.constants() == p.consts,
        t.seq@.len() <= usize::MAX,
    ensures
        forall|i: int|
            0 <= i < t.fixups@.len() ==> bits::word32(
                layout::laid_out(t, at, next),
                (#[trigger] t.fixups@[i]).disp_at as int,
            ) == layout::displacement(
                layout::target(
                    layout::with_return(t, at, next),
                    at,
                    t.constants(),
                    t.fixups@[i].what,
                ),
                at + t.fixups@[i].insn_end,
            ),
        layout::laid_out(t, at, next).subrange(
            t.seq@.len() as int,
            t.seq@.len() as int + 5,
        ) == layout::jump(at + t.seq@.len(), next),
        forall|k: int|
            0 <= k < t.seq@.len() && (forall|i: int|
                0 <= i < t.fixups@.len() ==> !((#[trigger] t.fixups@[i]).disp_at <= k
                    < t.fixups@[i].disp_at + 4)) ==> #[trigger] layout::laid_out(t, at, next)[k]
                == t.seq@[k],
{
    law_patches(p);
    let fixups = t.fixups@;
    assert(fixups == p.body().fixups && t.seq@ == p.body().seq);
    let r = layout::with_return(t, at, next);
    let image = layout::unpatched(t, at, next);
    let consts = t.constants();
    let addr = |what: FixupKind| layout::target(r, at, consts, what);
    lemma_consts_after(r, at, consts);
    assert forall|i: int| 0 <= i < fixups.len() implies (#[trigger] fixups[i]).disp_at + 4
        <= fixups[i].insn_end <= image.len() by {
        assert(fixups[i] == p.body().fixups[i]);
    }
    assert forall|i: int, j: int| 0 <= i < j < fixups.len() implies (
    #[trigger] fixups[i]).insn_end <= (#[trigger] fixups[j]).disp_at by {
        assert(fixups[i] == p.body().fixups[i] && fixups[j] == p.body().fixups[j]);
    }
    lemma_patched(image, at, fixups, addr, fixups.len() as int);
    let laid = layout::laid_out(t, at, next);
    assert(laid == layout::with_fixups(image, at, fixups, addr, fixups.len() as int));
    let n = t.seq@.len() as int;
    assert forall|k: int| n <= k < n + 5 implies #[trigger] laid[k] == r[k] by {
        assert forall|i: int| 0 <= i < fixups.len() implies !((#[trigger] fixups[i]).disp_at <= k
            < fixups[i].disp_at + 4) by {
            assert(fixups[i] == p.body().fixups[i]);
        }
        assert(laid[k] == image[k]);
        assert(r[k] == image[k]);
    }
    assert(laid.subrange(n, n + 5) =~= layout::jump(at + n, next));
    assert forall|k: int|
        0 <= k < n && (forall|i: int|
            0 <= i < fixups.len() ==> !((#[trigger] fixups[i]).disp_at <= k < fixups[i].disp_at
                + 4)) implies #[trigger] laid[k] == t.seq@[k] by {
        assert(laid[k] == image[k]);
        assert(r[k] == image[k]);
    }
}

/// Every constant stands on a 64-byte boundary: the card faults on a
/// misaligned vector memory operand.
pub proof fn law_constants_aligned(t: Seq<u8>, at: int, consts: Seq<Seq<u8>>, i: int)
    requires
        0 <= i < consts.len(),
    ensures
        layout::const_at(t, at, consts, i) % 64 == 0,
        layout::const_at(t, at, consts, i) >= at + t.len(),
        layout::const_at(t, at, consts, i) - at + consts[i].len() <= layout::with_consts(
            t,
            at,
            consts,
        ).len(),
        layout::with_consts(t, at, consts).subrange(
            layout::const_at(t, at, consts, i) - at,
            layout::const_at(t, at, consts, i) - at + consts[i].len(),
        ) == consts[i],
    decreases consts.len(),
{
    let before = layout::with_consts(t, at, consts.drop_last());
    lemma_consts_after(t, at, consts.take(i));
    if i < consts.len() - 1 {
        law_constants_aligned(t, at, consts.drop_last(), i);
        assert(consts.drop_last().take(i) =~= consts.take(i));
        let a = layout::const_at(t, at, consts, i) - at;
        assert(before.subrange(a, a + consts[i].len()) == consts.drop_last()[i]);
        assert(layout::with_consts(t, at, consts).subrange(a, a + consts[i].len()) =~= before.subrange(
            a,
            a + consts[i].len(),
        ));
    } else {
        assert(consts.take(i) =~= consts.drop_last());
        let n = at + before.len();
        assert((n + (-n) % 64) % 64 == 0);
        let a = layout::const_at(t, at, consts, i) - at;
        assert(layout::with_consts(t, at, consts).subrange(a, a + consts[i].len()) =~= consts[i]);
    }
}

/// The parts of the scratch area do not meet and are inside it: six vector
/// registers, then the general registers, the mask, the flags and the x87
/// control words, then the slot for conversions.
pub proof fn law_scratch_area()
    ensures
        64 * ZMM_SLOTS <= S_RAX,
        S_RAX + 8 <= S_RCX,
        S_RCX + 8 <= S_K,
        S_K + 8 <= S_GPR,
        S_GPR + 8 <= S_FLAGS,
        S_FLAGS + 8 <= S_CW,
        S_CW + 4 <= S_CW2,
        S_CW2 + 4 <= S_XFER,
        S_XFER + 64 <= SCRATCH_BYTES,
        S_XFER % 64 == 0,
{
}

/// The temporaries of a sequence are registers the instruction does not
/// name, each saved in a slot of its own before it is used.
pub proof fn law_temporaries(p: Prog, i: int, j: int)
    requires
        p.sound(),
        0 <= i < j < p.temps.len(),
    ensures
        p.temps[i] != p.temps[j],
        !p.operands.contains(p.temps[i]),
        !p.operands.contains(p.temps[j]),
        j < ZMM_SLOTS,
{
    reveal(Prog::sound);
}

/// The scratch mask register is never one of the instruction's: an
/// instruction names at most six, and seven can be chosen from.
pub proof fn law_scratch_mask(scratch: i32, d: Decoded)
    requires
        d.head.op_count <= 5,
    ensures
        1 <= Prog::start(scratch, d).kscr <= 7,
        !prog::mask_regs(d).contains(Prog::start(scratch, d).kscr),
{
    let used = prog::mask_regs(d);
    lemma_few_masks(d, d.head.op_count as int);
    assert(used.len() <= 6);
    lemma_mask_left(used);
}

/// Of seven masks one is left where fewer are held.
pub proof fn lemma_mask_left(used: Seq<u8>)
    requires
        used.len() <= 6,
    ensures
        1 <= prog::free_mask(used, 7) <= 7,
        !used.contains(prog::free_mask(used, 7)),
{
    if forall|k: u8| 1 <= k <= 7 ==> used.contains(k) {
        let full = vstd::set_lib::set_int_range(1, 8);
        let codes = used.map_values(|k: u8| k as int);
        let held = codes.to_set();
        vstd::set_lib::lemma_int_range(1, 8);
        codes.lemma_cardinality_of_set();
        assert forall|k: int| full.contains(k) implies held.contains(k) by {
            assert(used.contains(k as u8));
            let i = choose|i: int| 0 <= i < used.len() && used[i] == k as u8;
            assert(codes[i] == k);
        }
        vstd::set_lib::lemma_len_subset(full, held);
        assert(false);
    }
    let free = choose|k: u8| 1 <= k <= 7 && !used.contains(k);
    lemma_free_mask(used, 7, free);
}

proof fn lemma_few_masks(d: Decoded, n: int)
    requires
        0 <= n,
    ensures
        prog::operand_kregs(d, n).len() <= n,
    decreases n,
{
    if n > 0 {
        lemma_few_masks(d, n - 1);
    }
}

proof fn lemma_free_mask(used: Seq<u8>, k: int, free: u8)
    requires
        1 <= free <= k <= 7,
        !used.contains(free),
    ensures
        1 <= prog::free_mask(used, k) <= 7,
        !used.contains(prog::free_mask(used, k)),
    decreases k,
{
    if used.contains(k as u8) {
        lemma_free_mask(used, k - 1, free);
    }
}

/// The opcode of an operation both machines have.
pub open spec fn opcode_of(m: u16) -> Opcode {
    if m == mn::VADDPS || m == mn::VSUBPS || m == mn::VMULPS {
        Opcode {
            map: Map0::M0F,
            pp: Pp::Bare,
            w: false,
            op: if m == mn::VADDPS {
                0x58
            } else if m == mn::VSUBPS {
                0x5c
            } else {
                0x59
            },
        }
    } else if m == mn::VADDPD || m == mn::VSUBPD || m == mn::VMULPD {
        Opcode {
            map: Map0::M0F,
            pp: Pp::P66,
            w: true,
            op: if m == mn::VADDPD {
                0x58
            } else if m == mn::VSUBPD {
                0x5c
            } else {
                0x59
            },
        }
    } else if m == mn::VFMADD231PS || m == mn::VFMADD231PD {
        Opcode { map: Map0::M0F38, pp: Pp::P66, w: m == mn::VFMADD231PD, op: 0xb8 }
    } else if m == mn::VFMADD213PS || m == mn::VFMADD213PD {
        Opcode { map: Map0::M0F38, pp: Pp::P66, w: m == mn::VFMADD213PD, op: 0xa8 }
    } else {
        Opcode {
            map: Map0::M0F,
            pp: Pp::P66,
            w: false,
            op: if m == mn::VPADDD {
                0xfe
            } else if m == mn::VPSUBD {
                0xfa
            } else if m == mn::VPANDD {
                0xdb
            } else if m == mn::VPANDND {
                0xdf
            } else if m == mn::VPORD {
                0xeb
            } else {
                0xef
            },
        }
    }
}

proof fn lemma_mechanical(m: u16, dst: Zmm, s1: Zmm, s2: Src, k: K)
    requires
        translate::is_mechanical(m),
    ensures
        (translate::mechanical(m, dst, s1, s2, k)->0).bytes == encode::mvex_bytes(
            opcode_of(m),
            dst.0,
            s1.0,
            s2,
            k.0,
            None,
        ),
{
}

proof fn lemma_mask_field(v: u8, aaa: u8, sss: u8)
    requires
        aaa < 8,
    ensures
        ((!(v >> 4) & 1) << 3 | aaa | sss << 4) & 7 == aaa,
{
    assert(((!(v >> 4) & 1) << 3 | aaa | sss << 4) & 7 == aaa) by (bit_vector)
        requires
            aaa < 8,
    ;
}

/// Write masks survive translation: every instruction of a translation runs
/// under the mask the instruction did.
pub proof fn law_masks_survive(d: Decoded, i: int)
    requires
        d.translatable(),
        translate::translation(d) is Card,
        0 <= i < (translate::translation(d)->Card_0).len(),
    ensures
        (translate::translation(d)->Card_0)[i].bytes[3] & 7 == translate::mask_of(d.head.mask).0,
{
    let m = d.head.mnemonic;
    let k = translate::mask_of(d.head.mask);
    if translate::is_mechanical(m) {
        let dst = translate::zmm_of(d.reg(0))->0;
        let s = translate::sources_of(d)->Ok_0;
        lemma_mechanical(m, dst, s.0, s.1, k);
        lemma_mask_field((s.0).0, k.0, s.1.spec_sss());
    } else {
        lemma_mask_field(0, k.0, 0);
    }
}

/// An unaligned move becomes two instructions that address two lines: of one
/// base, the second 64 bytes after the first.
pub proof fn law_pair_addresses_two_lines(d: Decoded)
    requires
        d.translatable(),
        translate::translation(d) is Card,
        translate::is_unaligned_move(d.head.mnemonic),
    ensures
        ({
            let s = translate::translation(d)->Card_0;
            let lo = translate::mem_of(d)->Ok_0;
            &&& s.len() == 2
            &&& bits::word32(s[0].bytes, 6) == lo.spec_disp() as u32
            &&& bits::word32(s[1].bytes, 6) == ((lo.spec_disp() + 64) as i32) as u32
            &&& s[0].bytes[5] == s[1].bytes[5]
            &&& s[0].bytes.take(4) == s[1].bytes.take(4)
            &&& s[1].bytes[4] == s[0].bytes[4] + 4
        }),
{
    broadcast use Mem::lemma_at;

    let s = translate::translation(d)->Card_0;
    let lo = translate::mem_of(d)->Ok_0;
    let hi = ((lo.spec_disp() + 64) as i32) as u32;
    let l0 = bits::le32(lo.spec_disp() as u32);
    let l1 = bits::le32(hi);
    bits::lemma_word32(lo.spec_disp() as u32);
    bits::lemma_word32(hi);
    assert(s[0].bytes[6] == l0[0] && s[0].bytes[7] == l0[1] && s[0].bytes[8] == l0[2]
        && s[0].bytes[9] == l0[3]);
    assert(s[1].bytes[6] == l1[0] && s[1].bytes[7] == l1[1] && s[1].bytes[8] == l1[2]
        && s[1].bytes[9] == l1[3]);
    assert(s[0].bytes.take(4) =~= s[1].bytes.take(4));
}

/// Whether what was decoded of a six-byte EVEX instruction on three 512-bit
/// registers is what its bytes say: the opcode of its mnemonic, the three
/// registers and the mask; full length, no zeroing, no broadcast.
pub open spec fn decoded_as_encoded(d: Decoded, bytes: Seq<u8>) -> bool {
    let f = ev::parsed(bytes);
    let o = opcode_of(d.head.mnemonic);
    &&& bytes.len() == 6
    &&& bytes[0] == 0x62
    &&& bytes[1] & 0x0c == 0
    &&& f.ll == 2 && !f.z && !f.b && f.is_reg_rm
    &&& f.map == o.map.spec_num() && f.pp == o.pp.spec_num() && f.op == o.op
    &&& f.w == (if o.w { 1u8 } else { 0u8 })
    &&& d.head.op_count == 3
    &&& d.kind(2) == insn::KIND_REGISTER
    &&& d.reg(0) == insn::REG_ZMM0 + f.reg
    &&& d.reg(1) == insn::REG_ZMM0 + f.vvvv
    &&& d.reg(2) == insn::REG_ZMM0 + f.rm
    &&& d.head.mask == (if f.aaa == 0 { insn::REG_NONE as int } else { insn::REG_K0 + f.aaa })
    &&& !d.head.zeroing && !d.head.broadcast && d.head.rounding == insn::ROUNDING_NONE
}

proof fn lemma_rebuilt(p0: u8, p1: u8, p2: u8, modrm: u8)
    requires
        p0 & 0x0c == 0,
        modrm >> 6 == 3,
    ensures
        ({
            let reg = ((modrm >> 3) & 7) | ((!p0 >> 7) & 1) << 3 | ((!p0 >> 4) & 1) << 4;
            let vvvv = ((!p1 >> 3) & 0xf) | ((!p2 >> 3) & 1) << 4;
            let rm = (modrm & 7) | ((!p0 >> 5) & 1) << 3 | ((!p0 >> 6) & 1) << 4;
            &&& reg < 32 && vvvv < 32 && rm < 32
            &&& (!((reg >> 3) & 1) & 1) << 7 | (!((rm >> 4) & 1) & 1) << 6 | (!((rm >> 3) & 1) & 1)
                << 5 | (!((reg >> 4) & 1) & 1) << 4 | (p0 & 3) == p0
            &&& (p1 >> 7) << 7 | (!vvvv & 0xf) << 3 | (p1 & 3) == p1 & 0xfb
            &&& (!(vvvv >> 4) & 1) << 3 | (p2 & 7) | 0u8 << 4 == 0u8 | (p2 & 0x0f)
            &&& 0xc0u8 | (reg & 7) << 3 | (rm & 7) == modrm
        }),
{
    let reg = ((modrm >> 3) & 7) | ((!p0 >> 7) & 1) << 3 | ((!p0 >> 4) & 1) << 4;
    let vvvv = ((!p1 >> 3) & 0xf) | ((!p2 >> 3) & 1) << 4;
    let rm = (modrm & 7) | ((!p0 >> 5) & 1) << 3 | ((!p0 >> 6) & 1) << 4;
    assert(reg < 32 && vvvv < 32 && rm < 32 && (!((reg >> 3) & 1) & 1) << 7 | (!((rm >> 4) & 1) & 1)
        << 6 | (!((rm >> 3) & 1) & 1) << 5 | (!((reg >> 4) & 1) & 1) << 4 | (p0 & 3) == p0 && (p1
        >> 7) << 7 | (!vvvv & 0xf) << 3 | (p1 & 3) == p1 & 0xfb && (!(vvvv >> 4) & 1) << 3 | (p2
        & 7) | 0u8 << 4 == 0u8 | (p2 & 0x0f) && 0xc0u8 | (reg & 7) << 3 | (rm & 7) == modrm)
        by (bit_vector)
        requires
            p0 & 0x0c == 0,
            modrm >> 6 == 3,
            reg == ((modrm >> 3) & 7) | ((!p0 >> 7) & 1) << 3 | ((!p0 >> 4) & 1) << 4,
            vvvv == ((!p1 >> 3) & 0xf) | ((!p2 >> 3) & 1) << 4,
            rm == (modrm & 7) | ((!p0 >> 5) & 1) << 3 | ((!p0 >> 6) & 1) << 4,
    ;
}

/// The arithmetic both machines have is translated by changing P1 bit 2 and
/// P2 and nothing else: what the encoder writes for the decoded operands is
/// what keeping the instruction in place gives.
pub proof fn law_two_places_only(d: Decoded, bytes: Seq<u8>)
    requires
        translate::is_mechanical(d.head.mnemonic),
        decoded_as_encoded(d, bytes),
    ensures
        translate::translation(d) matches translate::Translation::Card(s) && s.len() == 1
            && s[0].bytes == rewrite::in_place(bytes, 6, false),
{
    let f = ev::parsed(bytes);
    let m = d.head.mnemonic;
    lemma_rebuilt(bytes[1], bytes[2], bytes[3], bytes[5]);
    lemma_mask_bound(bytes[3]);
    assert forall|i: int| 0 <= i < d.head.op_count implies !translate::narrow(d, i) by {
        assert(i == 0 || i == 1 || i == 2);
    }
    assert(translate::zmm_of(d.reg(0)) == Some(Zmm(f.reg)));
    assert(translate::zmm_of(d.reg(1)) == Some(Zmm(f.vvvv)));
    assert(translate::zmm_of(d.reg(2)) == Some(Zmm(f.rm)));
    assert(translate::mask_of(d.head.mask) == K(f.aaa));
    lemma_mechanical(m, Zmm(f.reg), Zmm(f.vvvv), Src::Reg(Zmm(f.rm)), K(f.aaa));
    let b = encode::mvex_bytes(
        opcode_of(m),
        f.reg,
        f.vvvv,
        Src::Reg(Zmm(f.rm)),
        f.aaa,
        None,
    );
    assert(b =~= rewrite::in_place(bytes, 6, false));
}

proof fn lemma_mask_bound(p2: u8)
    ensures
        p2 & 7 < 8,
{
    bits::lemma_low(p2);
}

} // verus!
