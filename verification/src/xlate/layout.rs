//! Where a thunk lands: its sequence, the jump back, its constants, and
//! the jump that replaces the instruction it stands for.
use crate::bits;
use crate::xlate::code::{Fixup, FixupKind, Thunk};
use vstd::prelude::*;

verus! {

/// The 32-bit displacement from `from` to `to`: their distance modulo 2^32.
pub open spec fn displacement(to: int, from: int) -> u32 {
    ((to - from) % 0x1_0000_0000) as u32
}

/// `jmp rel32` standing at `at`, to `to`.
pub open spec fn jump(at: int, to: int) -> Seq<u8> {
    seq![0xe9u8] + bits::le32(displacement(to, at + 5))
}

/// The bytes that bring `addr` to a 64-byte boundary (`int3`).
pub open spec fn padding(addr: int) -> Seq<u8> {
    Seq::new(((-addr) % 64) as nat, |i: int| 0xccu8)
}

/// `t`, which stands at `at`, with the constants appended, each on a
/// 64-byte boundary.
pub open spec fn with_consts(t: Seq<u8>, at: int, consts: Seq<Seq<u8>>) -> Seq<u8>
    decreases consts.len(),
{
    if consts.len() == 0 {
        t
    } else {
        let before = with_consts(t, at, consts.drop_last());
        before + padding(at + before.len()) + consts.last()
    }
}

/// The address of constant `i`.
pub open spec fn const_at(t: Seq<u8>, at: int, consts: Seq<Seq<u8>>, i: int) -> int {
    let before = with_consts(t, at, consts.take(i));
    at + before.len() + padding(at + before.len()).len()
}

/// The address a patch refers to.
pub open spec fn target(t: Seq<u8>, at: int, consts: Seq<Seq<u8>>, what: FixupKind) -> int {
    match what {
        FixupKind::Const(i) => const_at(t, at, consts, i as int),
        FixupKind::Rip(a) => a as int,
    }
}

/// `t` with the four bytes at `i` replaced by `x`.
pub open spec fn patched32(t: Seq<u8>, i: int, x: u32) -> Seq<u8> {
    t
        .update(i, (x & 0xff) as u8)
        .update(i + 1, ((x >> 8) & 0xff) as u8)
        .update(i + 2, ((x >> 16) & 0xff) as u8)
        .update(i + 3, ((x >> 24) & 0xff) as u8)
}

/// `image`, which stands at `at`, with the first `n` fixups patched:
/// `addr` gives the address each refers to.
pub open spec fn with_fixups(
    image: Seq<u8>,
    at: int,
    fixups: Seq<Fixup>,
    addr: spec_fn(FixupKind) -> int,
    n: int,
) -> Seq<u8>
    decreases n,
{
    if n <= 0 {
        image
    } else {
        let f = fixups[n - 1];
        patched32(
            with_fixups(image, at, fixups, addr, n - 1),
            f.disp_at as int,
            displacement(addr(f.what), at + f.insn_end),
        )
    }
}

/// The sequence of `thunk` at `at` with the jump back to `next`.
pub open spec fn with_return(thunk: Thunk, at: int, next: int) -> Seq<u8> {
    thunk.seq@ + jump(at + thunk.seq@.len(), next)
}

/// The sequence, the jump back and the constants, nothing patched.
pub open spec fn unpatched(thunk: Thunk, at: int, next: int) -> Seq<u8> {
    with_consts(with_return(thunk, at, next), at, thunk.constants())
}

/// The whole thunk.
pub open spec fn laid_out(thunk: Thunk, at: int, next: int) -> Seq<u8> {
    let t = with_return(thunk, at, next);
    let consts = thunk.constants();
    with_fixups(
        unpatched(thunk, at, next),
        at,
        thunk.fixups@,
        |what: FixupKind| target(t, at, consts, what),
        thunk.fixups@.len() as int,
    )
}

/// The site's replacement: a jump to the thunk padded with NOPs to `len`.
pub open spec fn site_bytes(site: int, at: int, len: int) -> Seq<u8> {
    jump(site, at) + Seq::new(
        (if len > 5 { len - 5 } else { 0 }) as nat,
        |i: int| 0x90u8,
    )
}

/// Whether every fixup patches bytes of the thunk and refers to a constant
/// it has, and the thunk ends within the address space.
pub open spec fn fits(thunk: Thunk, at: int, next: int) -> bool {
    let image = unpatched(thunk, at, next);
    &&& at + image.len() <= u64::MAX
    &&& forall|i: int| 0 <= i < thunk.fixups@.len() ==> (#[trigger] thunk.fixups@[i]).disp_at + 4
        <= image.len()
    &&& forall|i: int|
        0 <= i < thunk.fixups@.len() ==> ((#[trigger] thunk.fixups@[i]).what matches FixupKind::Const(
            c,
        ) ==> c < thunk.consts@.len())
}

/// The displacement from `from` to `to`.
fn displace(to: u64, from: u64) -> (d: u32)
    ensures
        d == displacement(to as int, from as int),
{
    let x: u64 = to.wrapping_sub(from);
    assert(x as u32 == x % 0x1_0000_0000) by (bit_vector);
    x as u32
}

/// Appends `jmp rel32` standing at `at` to `to`.
fn push_jump(v: &mut Vec<u8>, at: u64, to: u64)
    ensures
        final(v)@ == old(v)@ + jump(at as int, to as int),
{
    v.push(0xe9);
    let d: u32 = displace(to, at.wrapping_add(5));
    assert(d == displacement(to as int, at + 5)) by {
        let end = at.wrapping_add(5);
        assert((to - end) % 0x1_0000_0000 == (to - (at + 5)) % 0x1_0000_0000);
    }
    bits::push_le32(v, d);
    assert(v@ =~= old(v)@ + jump(at as int, to as int));
}

/// Replaces the four bytes at `i`.
fn patch32(t: &mut Vec<u8>, i: usize, x: u32)
    requires
        i + 4 <= old(t)@.len(),
    ensures
        final(t)@ == patched32(old(t)@, i as int, x),
{
    let end: usize = t.len();
    assert(i + 4 <= end);
    t.set(i, (x & 0xff) as u8);
    t.set(i + 1, ((x >> 8) & 0xff) as u8);
    t.set(i + 2, ((x >> 16) & 0xff) as u8);
    t.set(i + 3, ((x >> 24) & 0xff) as u8);
}

proof fn lemma_with_consts_grows(t: Seq<u8>, at: int, consts: Seq<Seq<u8>>, n: int)
    requires
        0 <= n <= consts.len(),
    ensures
        with_consts(t, at, consts.take(n)).len() <= with_consts(t, at, consts).len(),
    decreases consts.len() - n,
{
    if n < consts.len() {
        lemma_with_consts_grows(t, at, consts, n + 1);
        assert(consts.take(n + 1).drop_last() =~= consts.take(n));
    } else {
        assert(consts.take(n) =~= consts);
    }
}

/// Appends the constants of `thunk`, each on a 64-byte boundary, and gives
/// their addresses.
fn push_consts(t: &mut Vec<u8>, thunk: &Thunk, at: u64) -> (addrs: Vec<u64>)
    requires
        at + with_consts(old(t)@, at as int, thunk.constants()).len() <= u64::MAX,
    ensures
        final(t)@ == with_consts(old(t)@, at as int, thunk.constants()),
        addrs@.len() == thunk.consts@.len(),
        forall|i: int|
            0 <= i < addrs@.len() ==> #[trigger] addrs@[i] == const_at(
                old(t)@,
                at as int,
                thunk.constants(),
                i,
            ),
{
    let ghost t0 = t@;
    let ghost consts = thunk.constants();
    let mut addrs: Vec<u64> = Vec::new();
    let mut i: usize = 0;
    assert(consts.take(0) =~= seq![]);
    while i < thunk.consts.len()
        invariant
            consts == thunk.constants(),
            i <= thunk.consts@.len(),
            t@ == with_consts(t0, at as int, consts.take(i as int)),
            at + with_consts(t0, at as int, consts).len() <= u64::MAX,
            addrs@.len() == i,
            forall|j: int|
                0 <= j < i ==> #[trigger] addrs@[j] == const_at(t0, at as int, consts, j),
        decreases thunk.consts@.len() - i,
    {
        let ghost before = t@;
        proof {
            lemma_with_consts_grows(t0, at as int, consts, i + 1);
            assert(consts.take(i + 1).drop_last() =~= consts.take(i as int));
            assert(consts.take(i + 1).last() == thunk.consts@[i as int]@);
        }
        let ghost pad = padding(at + before.len());
        // The card faults on a misaligned vector memory operand: every
        // constant goes on a 64-byte boundary.
        let mut n: usize = 0;
        while (at + t.len() as u64) % 64 != 0
            invariant
                n <= pad.len(),
                pad == padding(at + before.len()),
                t@ == before + pad.take(n as int),
                at + before.len() + pad.len() <= u64::MAX,
                before.len() + pad.len() <= u64::MAX,
            decreases pad.len() - n,
        {
            assert(n < pad.len());
            t.push(0xcc);
            n = n + 1;
            assert(t@ =~= before + pad.take(n as int));
        }
        assert(n == pad.len());
        assert(pad.take(n as int) =~= pad);
        addrs.push(at + t.len() as u64);
        let c = thunk.consts[i];
        bits::push_all(t, &c);
        i = i + 1;
    }
    assert(consts.take(i as int) =~= consts);
    addrs
}

/// Lay a thunk out at `at` for a site at `site` of `len` bytes whose next
/// instruction is `next`: the sequence, `jmp next`, then the constants on
/// 64-byte boundaries, with every fixup patched. Returns the thunk bytes
/// and the site's replacement (`jmp at` padded with NOPs to `len`).
pub fn thunk_bytes(thunk: &Thunk, at: u64, site: u64, len: usize, next: u64) -> (r: (
    Vec<u8>,
    Vec<u8>,
))
    requires
        fits(*thunk, at as int, next as int),
    ensures
        r.0@ == laid_out(*thunk, at as int, next as int),
        r.1@ == site_bytes(site as int, at as int, len as int),
{
    let mut t: Vec<u8> = Vec::new();
    bits::push_all(&mut t, thunk.seq.as_slice());
    assert(t@ =~= thunk.seq@);
    let ghost t0 = with_return(*thunk, at as int, next as int);
    proof {
        lemma_with_consts_grows(t0, at as int, thunk.constants(), 0);
        assert(thunk.constants().take(0) =~= seq![]);
    }
    let back: u64 = at + t.len() as u64;
    push_jump(&mut t, back, next);
    assert(t@ == t0);
    let addrs = push_consts(&mut t, thunk, at);
    let ghost image = t@;
    let ghost addr = |what: FixupKind| target(t0, at as int, thunk.constants(), what);
    let mut i: usize = 0;
    while i < thunk.fixups.len()
        invariant
            i <= thunk.fixups@.len(),
            fits(*thunk, at as int, next as int),
            t0 == with_return(*thunk, at as int, next as int),
            image == unpatched(*thunk, at as int, next as int),
            addr == (|what: FixupKind| target(t0, at as int, thunk.constants(), what)),
            t@.len() == image.len(),
            t@ == with_fixups(image, at as int, thunk.fixups@, addr, i as int),
            addrs@.len() == thunk.consts@.len(),
            forall|j: int|
                0 <= j < addrs@.len() ==> #[trigger] addrs@[j] == const_at(
                    t0,
                    at as int,
                    thunk.constants(),
                    j,
                ),
        decreases thunk.fixups@.len() - i,
    {
        let f = thunk.fixups[i];
        assert(f == thunk.fixups@[i as int]);
        let to: u64 = match f.what {
            FixupKind::Const(c) => addrs[c],
            FixupKind::Rip(a) => a,
        };
        let end: u64 = at.wrapping_add(f.insn_end as u64);
        let d: u32 = displace(to, end);
        assert(d == displacement(to as int, at + f.insn_end)) by {
            assert((to - end) % 0x1_0000_0000 == (to - (at + f.insn_end)) % 0x1_0000_0000);
        }
        patch32(&mut t, f.disp_at, d);
        i = i + 1;
    }
    let mut s: Vec<u8> = Vec::new();
    push_jump(&mut s, site, at);
    let ghost j = jump(site as int, at as int);
    while s.len() < len
        invariant
            s@.len() >= 5,
            j.len() == 5,
            s@ == j + Seq::new((s@.len() - 5) as nat, |i: int| 0x90u8),
            s@.len() <= len || s@.len() == 5,
        decreases len - s@.len(),
    {
        s.push(0x90);
        assert(s@ =~= j + Seq::new((s@.len() - 5) as nat, |i: int| 0x90u8));
    }
    assert(s@ =~= site_bytes(site as int, at as int, len as int));
    (t, s)
}

} // verus!
