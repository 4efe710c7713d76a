//! What the kernels do when they are run, on the core of
//! [`crate::kernelgen::machine`].
use crate::kernelgen::copy;
use crate::kernelgen::machine;
use crate::kernelgen::machine::{Core, Line, When};
use crate::kernelgen::measure;
use crate::mvex::reg::{Gpr, Mem, Zmm};
use vstd::prelude::*;

verus! {

/// Where a copy of `count` vectors from `src` to `dst` can begin: at the
/// kernel's first line, its arguments in their registers, both ends on the
/// boundary of a vector, within memory and apart.
pub open spec fn copies(c: Core, dst: int, src: int, count: int) -> bool {
    &&& c.at == 0 && c.ok && !c.done
    &&& c.g[copy::DST] == dst && c.g[copy::SRC] == src && c.g[copy::COUNT] == count
    &&& 0 <= dst < 0x1_0000_0000_0000_0000 && 0 <= src < 0x1_0000_0000_0000_0000 && count >= 0
    &&& dst % 64 == 0 && src % 64 == 0
    &&& dst + 64 * count <= 0x1_0000_0000_0000_0000
    &&& src + 64 * count <= 0x1_0000_0000_0000_0000
    &&& dst + 64 * count <= src || src + 64 * count <= dst
}

/// Whether `after` has `n` vectors of `before` copied from `src` to `dst`, and
/// memory as it was elsewhere.
pub open spec fn copied(before: Core, after: Core, dst: int, src: int, n: int) -> bool {
    forall|a: int| #[trigger]
        (after.mem)(a) == if dst <= a < dst + 64 * n {
            (before.mem)(src + (a - dst))
        } else {
            (before.mem)(a)
        }
}

/// Whether `c` is within the copy, `n` vectors on.
spec fn within(before: Core, c: Core, n: int) -> bool {
    let (dst, src, count) = (before.g[copy::DST], before.g[copy::SRC], before.g[copy::COUNT]);
    &&& 0 <= n <= count
    &&& c.ok && !c.done
    &&& c.g[copy::DST] == machine::wrap(dst + 64 * n)
    &&& c.g[copy::SRC] == machine::wrap(src + 64 * n)
    &&& c.g[copy::COUNT] == count - n
    &&& copied(before, c, dst, src, n)
}

/// The lines of the copy, one by one.
proof fn lemma_copy_lines()
    ensures
        copy::copy_lines().len() == 28,
        copy::copy_lines()[0] == (Line::Against { n: 4, g: copy::COUNT }),
        copy::copy_lines()[1] == (Line::Jump { when: When::Below, label: 2, forward: true }),
        copy::copy_lines()[2] == (Line::Mark { label: 1, indented: false }),
        copy::copy_lines()[3] == (Line::Load { z: Zmm(0), m: Mem::at(copy::SRC, 0) }),
        copy::copy_lines()[4] == (Line::Load { z: Zmm(1), m: Mem::at(copy::SRC, 64) }),
        copy::copy_lines()[5] == (Line::Load { z: Zmm(2), m: Mem::at(copy::SRC, 128) }),
        copy::copy_lines()[6] == (Line::Load { z: Zmm(3), m: Mem::at(copy::SRC, 192) }),
        copy::copy_lines()[7] == (Line::Store { m: Mem::at(copy::DST, 0), z: Zmm(0) }),
        copy::copy_lines()[8] == (Line::Store { m: Mem::at(copy::DST, 64), z: Zmm(1) }),
        copy::copy_lines()[9] == (Line::Store { m: Mem::at(copy::DST, 128), z: Zmm(2) }),
        copy::copy_lines()[10] == (Line::Store { m: Mem::at(copy::DST, 192), z: Zmm(3) }),
        copy::copy_lines()[11] == (Line::Plus { n: 256, g: copy::SRC }),
        copy::copy_lines()[12] == (Line::Plus { n: 256, g: copy::DST }),
        copy::copy_lines()[13] == (Line::Minus { n: 4, g: copy::COUNT }),
        copy::copy_lines()[14] == (Line::Against { n: 4, g: copy::COUNT }),
        copy::copy_lines()[15] == (Line::Jump { when: When::NotBelow, label: 1, forward: false }),
        copy::copy_lines()[16] == (Line::Mark { label: 2, indented: false }),
        copy::copy_lines()[17] == (Line::Test { g: copy::COUNT }),
        copy::copy_lines()[18] == (Line::Jump { when: When::Zero, label: 4, forward: true }),
        copy::copy_lines()[19] == (Line::Mark { label: 3, indented: false }),
        copy::copy_lines()[20] == (Line::Load { z: Zmm(0), m: Mem::at(copy::SRC, 0) }),
        copy::copy_lines()[21] == (Line::Store { m: Mem::at(copy::DST, 0), z: Zmm(0) }),
        copy::copy_lines()[22] == (Line::Plus { n: 64, g: copy::SRC }),
        copy::copy_lines()[23] == (Line::Plus { n: 64, g: copy::DST }),
        copy::copy_lines()[24] == (Line::Dec { g: copy::COUNT }),
        copy::copy_lines()[25] == (Line::Jump { when: When::NotZero, label: 3, forward: false }),
        copy::copy_lines()[26] == (Line::Mark { label: 4, indented: false }),
        copy::copy_lines()[27] == Line::Ret,
{
    reveal(copy::copy_lines);
}

/// Four vectors loaded.
proof fn lemma_loads(c: Core, s: int) -> (to: Core)
    requires
        c.ok && !c.done,
        c.at == 2,
        c.g[copy::SRC] == s,
        s % 64 == 0,
        0 <= s <= 0x1_0000_0000_0000_0000 - 256,
    ensures
        c.reaches(copy::copy_lines(), to),
        to == (Core { at: 7, z: to.z, ..c }),
        to.z[Zmm(0)] == c.bytes(s),
        to.z[Zmm(1)] == c.bytes(s + 64),
        to.z[Zmm(2)] == c.bytes(s + 128),
        to.z[Zmm(3)] == c.bytes(s + 192),
{
    broadcast use Mem::lemma_at;

    lemma_copy_lines();
    let lines = copy::copy_lines();
    let c1 = c.step(lines);
    let c2 = c1.step(lines);
    let c3 = c2.step(lines);
    let c4 = c3.step(lines);
    let c5 = c4.step(lines);
    assert(c.run(lines, 5) == c5) by {
        reveal_with_fuel(Core::run, 6);
    }
    c5
}

/// Four vectors stored.
proof fn lemma_stores(c: Core, d: int) -> (to: Core)
    requires
        c.ok && !c.done,
        c.at == 7,
        c.g[copy::DST] == d,
        d % 64 == 0,
        0 <= d <= 0x1_0000_0000_0000_0000 - 256,
    ensures
        c.reaches(copy::copy_lines(), to),
        to == (Core { at: 11, mem: to.mem, ..c }),
        forall|a: int| #[trigger]
            (to.mem)(a) == if d <= a < d + 64 {
                c.z[Zmm(0)][a - d]
            } else if d + 64 <= a < d + 128 {
                c.z[Zmm(1)][a - d - 64]
            } else if d + 128 <= a < d + 192 {
                c.z[Zmm(2)][a - d - 128]
            } else if d + 192 <= a < d + 256 {
                c.z[Zmm(3)][a - d - 192]
            } else {
                (c.mem)(a)
            },
{
    broadcast use Mem::lemma_at;

    lemma_copy_lines();
    let lines = copy::copy_lines();
    let c1 = c.step(lines);
    let c2 = c1.step(lines);
    let c3 = c2.step(lines);
    let c4 = c3.step(lines);
    assert(c.run(lines, 4) == c4) by {
        reveal_with_fuel(Core::run, 5);
    }
    c4
}

/// Four vectors counted.
proof fn lemma_counts(c: Core) -> (to: Core)
    requires
        c.ok && !c.done,
        c.at == 11,
        c.g[copy::COUNT] >= 4,
        c.g[copy::COUNT] < 0x1_0000_0000_0000_0000,
    ensures
        c.reaches(copy::copy_lines(), to),
        to.ok && !to.done && to.mem == c.mem,
        to.g[copy::DST] == machine::wrap(c.g[copy::DST] + 256),
        to.g[copy::SRC] == machine::wrap(c.g[copy::SRC] + 256),
        to.g[copy::COUNT] == c.g[copy::COUNT] - 4,
        to.at == if c.g[copy::COUNT] - 4 >= 4 {
            2int
        } else {
            16
        },
{
    lemma_copy_lines();
    let lines = copy::copy_lines();
    let c1 = c.step(lines);
    let c2 = c1.step(lines);
    let c3 = c2.step(lines);
    let c4 = c3.step(lines);
    assert(machine::behind(lines, 1, 15) == 2) by {
        reveal_with_fuel(machine::behind, 15);
    }
    let to = c4.step(lines);
    assert(c.run(lines, 5) == to) by {
        reveal_with_fuel(Core::run, 6);
    }
    to
}

proof fn lemma_four(before: Core, c: Core, n: int) -> (to: Core)
    requires
        copies(before, before.g[copy::DST], before.g[copy::SRC], before.g[copy::COUNT]),
        within(before, c, n),
        c.at == 2,
        before.g[copy::COUNT] - n >= 4,
    ensures
        c.reaches(copy::copy_lines(), to),
        within(before, to, n + 4),
        to.at == if before.g[copy::COUNT] - (n + 4) >= 4 {
            2int
        } else {
            16
        },
{
    let lines = copy::copy_lines();
    let (dst, src) = (before.g[copy::DST], before.g[copy::SRC]);
    let (d, s) = (dst + 64 * n, src + 64 * n);
    let c1 = lemma_loads(c, s);
    let c2 = lemma_stores(c1, d);
    let to = lemma_counts(c2);
    c.lemma_on(lines, c1, c2);
    c.lemma_on(lines, c2, to);
    assert forall|a: int| #[trigger]
        (to.mem)(a) == if dst <= a < dst + 64 * (n + 4) {
            (before.mem)(src + (a - dst))
        } else {
            (before.mem)(a)
        } by {
        if d <= a < d + 256 {
            assert((to.mem)(a) == (c.mem)(s + (a - d)));
            assert((c.mem)(s + (a - d)) == (before.mem)(src + (a - dst)));
        } else {
            assert((to.mem)(a) == (c.mem)(a));
        }
    }
    to
}

#[verifier::rlimit(40)]
proof fn lemma_one(before: Core, c: Core, n: int) -> (to: Core)
    requires
        copies(before, before.g[copy::DST], before.g[copy::SRC], before.g[copy::COUNT]),
        within(before, c, n),
        c.at == 19,
        before.g[copy::COUNT] - n >= 1,
    ensures
        c.reaches(copy::copy_lines(), to),
        within(before, to, n + 1),
        to.at == if before.g[copy::COUNT] - (n + 1) >= 1 {
            19int
        } else {
            26
        },
{
    broadcast use Mem::lemma_at;

    lemma_copy_lines();
    let lines = copy::copy_lines();
    let (d, s) = (before.g[copy::DST] + 64 * n, before.g[copy::SRC] + 64 * n);
    let c1 = c.step(lines);
    let c2 = c1.step(lines);
    assert(c2 == (Core { at: 21, z: c.z.insert(Zmm(0), c.bytes(s)), ..c }));
    let c3 = c2.step(lines);
    assert(c3 == (Core { at: 22, mem: c3.mem, z: c2.z, ..c }));
    assert forall|a: int| #[trigger]
        (c3.mem)(a) == if d <= a < d + 64 {
            (c.mem)(s + (a - d))
        } else {
            (c.mem)(a)
        } by {}
    let c4 = c3.step(lines);
    let c5 = c4.step(lines);
    let c6 = c5.step(lines);
    assert(c6.at == 25 && c6.ok && !c6.done && c6.mem == c3.mem);
    assert(machine::behind(lines, 3, 25) == 19) by {
        reveal_with_fuel(machine::behind, 8);
    }
    let to = c6.step(lines);
    assert(c.run(lines, 7) == to) by {
        reveal_with_fuel(Core::run, 8);
    }
    to
}

/// Four at a time, as long as there are four.
proof fn lemma_fours(before: Core, c: Core, n: int) -> (to: (Core, int))
    requires
        copies(before, before.g[copy::DST], before.g[copy::SRC], before.g[copy::COUNT]),
        within(before, c, n),
        c.at == 2,
        before.g[copy::COUNT] - n >= 4,
    ensures
        c.reaches(copy::copy_lines(), to.0),
        within(before, to.0, to.1),
        to.0.at == 16,
    decreases before.g[copy::COUNT] - n,
{
    let next = lemma_four(before, c, n);
    if next.at == 2 {
        let to = lemma_fours(before, next, n + 4);
        c.lemma_on(copy::copy_lines(), next, to.0);
        to
    } else {
        (next, n + 4)
    }
}

/// One at a time, until none is left.
proof fn lemma_ones(before: Core, c: Core, n: int) -> (to: Core)
    requires
        copies(before, before.g[copy::DST], before.g[copy::SRC], before.g[copy::COUNT]),
        within(before, c, n),
        c.at == 19,
        before.g[copy::COUNT] - n >= 1,
    ensures
        c.reaches(copy::copy_lines(), to),
        within(before, to, before.g[copy::COUNT]),
        to.at == 26,
    decreases before.g[copy::COUNT] - n,
{
    let next = lemma_one(before, c, n);
    if next.at == 19 {
        let to = lemma_ones(before, next, n + 1);
        c.lemma_on(copy::copy_lines(), next, to);
        to
    } else {
        next
    }
}

/// `phi_copy64` returns, with `count` 64-byte vectors copied from `src` to
/// `dst`, and writes no other memory.
pub proof fn law_copy64(c: Core, dst: int, src: int, count: int) -> (to: Core)
    requires
        copies(c, dst, src, count),
    ensures
        c.reaches(copy::copy_lines(), to),
        to.done && to.ok,
        copied(c, to, dst, src, count),
{
    lemma_copy_lines();
    let lines = copy::copy_lines();
    let c1 = c.step(lines);
    assert(machine::ahead(lines, 2, 1) == 16) by {
        reveal_with_fuel(machine::ahead, 17);
    }
    let c2 = c1.step(lines);
    assert(c.run(lines, 2) == c2) by {
        reveal_with_fuel(Core::run, 3);
    }
    assert(within(c, c2, 0));
    let (mid, n) = if count >= 4 {
        lemma_fours(c, c2, 0)
    } else {
        assert(c2.run(lines, 0) == c2);
        (c2, 0)
    };
    c.lemma_on(lines, c2, mid);
    let m1 = mid.step(lines);
    let m2 = m1.step(lines);
    assert(machine::ahead(lines, 4, 18) == 26) by {
        reveal_with_fuel(machine::ahead, 10);
    }
    let m3 = m2.step(lines);
    assert(mid.run(lines, 3) == m3) by {
        reveal_with_fuel(Core::run, 4);
    }
    c.lemma_on(lines, mid, m3);
    assert(within(c, m3, n));
    let last = if n < count {
        lemma_ones(c, m3, n)
    } else {
        assert(m3.run(lines, 0) == m3);
        m3
    };
    c.lemma_on(lines, m3, last);
    let to = last.step(lines).step(lines);
    assert(last.run(lines, 2) == to) by {
        reveal_with_fuel(Core::run, 3);
    }
    c.lemma_on(lines, last, to);
    to
}

/// Whether the rate kernel can begin in `c`: at its first line, with room on
/// the stack for what it saves.
pub open spec fn measures(c: Core) -> bool {
    &&& c.at == 0 && c.ok && !c.done
    &&& 576 <= c.g[Gpr::Rsp] < 0x1_0000_0000_0000_0000
    &&& forall|z: Zmm| (#[trigger] c.z[z]).len() == 64
}

/// Where it saves the vector registers.
pub open spec fn saved_at(c: Core) -> int {
    c.g[Gpr::Rsp] - 512 - (c.g[Gpr::Rsp] - 512) % 64
}

/// Whether a line of the rate kernel writes no memory, no general register but
/// rax and rcx, and no vector register from zmm8 on.
spec fn quiet(l: Line) -> bool {
    match l {
        Line::Against { .. } | Line::Test { .. } | Line::Mark { .. } | Line::Jump { .. } => true,
        Line::Fetch { .. } => true,
        Line::Plus { g, .. } | Line::Put { g, .. } | Line::Dec { g } => g == Gpr::Rax || g == Gpr::Rcx,
        Line::Copy { to, .. } => to == Gpr::Rax || to == Gpr::Rcx,
        Line::Load { z, .. } | Line::Vector { z, .. } => z.0 < 8,
        _ => false,
    }
}

/// Where the restoring begins.
spec fn tail() -> int {
    77
}

/// The lines that save.
proof fn lemma_save_lines()
    ensures
        measure::bench_save().len() == 12,
        measure::bench_save()[0] == (Line::Copy { from: Gpr::Rsp, to: Gpr::R9 }),
        measure::bench_save()[1] == (Line::Minus { n: 512, g: Gpr::Rsp }),
        measure::bench_save()[2] == (Line::Align { g: Gpr::Rsp }),
        measure::bench_save()[3] == (Line::Copy { from: Gpr::Rsp, to: Gpr::R8 }),
        measure::bench_save()[4] == (Line::Store { m: Mem::at(Gpr::R8, 0), z: Zmm(0) }),
        measure::bench_save()[5] == (Line::Store { m: Mem::at(Gpr::R8, 64), z: Zmm(1) }),
        measure::bench_save()[6] == (Line::Store { m: Mem::at(Gpr::R8, 128), z: Zmm(2) }),
        measure::bench_save()[7] == (Line::Store { m: Mem::at(Gpr::R8, 192), z: Zmm(3) }),
        measure::bench_save()[8] == (Line::Store { m: Mem::at(Gpr::R8, 256), z: Zmm(4) }),
        measure::bench_save()[9] == (Line::Store { m: Mem::at(Gpr::R8, 320), z: Zmm(5) }),
        measure::bench_save()[10] == (Line::Store { m: Mem::at(Gpr::R8, 384), z: Zmm(6) }),
        measure::bench_save()[11] == (Line::Store { m: Mem::at(Gpr::R8, 448), z: Zmm(7) }),
{
    reveal(measure::bench_save);
}

/// The lines that restore.
proof fn lemma_restore_lines()
    ensures
        measure::bench_restore().len() == 11,
        measure::bench_restore()[0] == (Line::Mark { label: 9, indented: true }),
        measure::bench_restore()[1] == (Line::Load { z: Zmm(0), m: Mem::at(Gpr::R8, 0) }),
        measure::bench_restore()[2] == (Line::Load { z: Zmm(1), m: Mem::at(Gpr::R8, 64) }),
        measure::bench_restore()[3] == (Line::Load { z: Zmm(2), m: Mem::at(Gpr::R8, 128) }),
        measure::bench_restore()[4] == (Line::Load { z: Zmm(3), m: Mem::at(Gpr::R8, 192) }),
        measure::bench_restore()[5] == (Line::Load { z: Zmm(4), m: Mem::at(Gpr::R8, 256) }),
        measure::bench_restore()[6] == (Line::Load { z: Zmm(5), m: Mem::at(Gpr::R8, 320) }),
        measure::bench_restore()[7] == (Line::Load { z: Zmm(6), m: Mem::at(Gpr::R8, 384) }),
        measure::bench_restore()[8] == (Line::Load { z: Zmm(7), m: Mem::at(Gpr::R8, 448) }),
        measure::bench_restore()[9] == (Line::Copy { from: Gpr::R9, to: Gpr::Rsp }),
        measure::bench_restore()[10] == Line::Ret,
{
    reveal(measure::bench_restore);
}

/// How many the others are.
proof fn lemma_other_lines()
    ensures
        measure::bench_issue().len() == 19,
        measure::bench_choice().len() == 13,
        measure::bench_walks().len() == 33,
{
    reveal(measure::bench_issue);
    reveal(measure::bench_choice);
    reveal(measure::bench_walks);
}

/// The lines of the rate kernel, part by part.
proof fn lemma_layout(i: int)
    requires
        0 <= i < 88,
    ensures
        measure::bench_lines().len() == 88,
        i < 12 ==> measure::bench_lines()[i] == measure::bench_save()[i],
        12 <= i < tail() ==> quiet(measure::bench_lines()[i]),
        tail() <= i ==> measure::bench_lines()[i] == measure::bench_restore()[i - tail()],
        measure::bench_lines()[i] is Mark ==> 12 <= i <= tail(),
{
    lemma_save_lines();
    lemma_restore_lines();
    lemma_other_lines();
    let lines = measure::bench_lines();
    let j = i - 12;
    if 0 <= j < 19 {
        assert(lines[i] == measure::bench_issue()[j]);
        lemma_issue(j);
    } else if 19 <= j < 32 {
        assert(lines[i] == measure::bench_choice()[j - 19]);
        lemma_choice(j - 19);
    } else if 32 <= j < 65 {
        assert(lines[i] == measure::bench_walks()[j - 32]);
        lemma_walks(j - 32);
    } else if i < 12 {
        assert(lines[i] == measure::bench_save()[i]);
        assert(i == 0 || i == 1 || i == 2 || i == 3 || i == 4 || i == 5 || i == 6 || i == 7 || i == 8
            || i == 9 || i == 10 || i == 11);
    } else {
        let r = i - tail();
        assert(lines[i] == measure::bench_restore()[r]);
        assert(r == 0 || r == 1 || r == 2 || r == 3 || r == 4 || r == 5 || r == 6 || r == 7 || r == 8
            || r == 9 || r == 10);
    }
}

proof fn lemma_issue(j: int)
    requires
        0 <= j < measure::bench_issue().len(),
    ensures
        quiet(measure::bench_issue()[j]),
{
    reveal(measure::bench_issue);
}

proof fn lemma_choice(j: int)
    requires
        0 <= j < measure::bench_choice().len(),
    ensures
        quiet(measure::bench_choice()[j]),
{
    reveal(measure::bench_choice);
}

proof fn lemma_walks(j: int)
    requires
        0 <= j < measure::bench_walks().len(),
    ensures
        quiet(measure::bench_walks()[j]),
{
    reveal(measure::bench_walks);
}

/// Whether `c` has saved what `before` had, and changed nothing since that it
/// does not restore.
spec fn kept(before: Core, c: Core) -> bool {
    let base = saved_at(before);
    &&& c.g[Gpr::R8] == base
    &&& c.g[Gpr::R9] == before.g[Gpr::Rsp]
    &&& !c.done
    &&& forall|z: Zmm| z.0 >= 8 ==> #[trigger] c.z[z] == before.z[z]
    &&& forall|z: u8| z < 8 ==> c.bytes(base + 64 * z) == #[trigger] before.z[Zmm(z)]
    &&& forall|a: int| !(base <= a < base + 512) ==> #[trigger] (c.mem)(a) == (before.mem)(a)
}

/// The stack pointer moved.
proof fn lemma_makes_room(c: Core)
    requires
        measures(c),
    ensures
        ({
            let to = c.run(measure::bench_lines(), 4);
            &&& to.at == 4 && to.ok && !to.done && to.z == c.z && to.mem == c.mem
            &&& to.g[Gpr::R8] == saved_at(c)
            &&& to.g[Gpr::R9] == c.g[Gpr::Rsp]
        }),
        forall|n: nat| n <= 4 ==> !(#[trigger] c.run(measure::bench_lines(), n)).done,
{
    let lines = measure::bench_lines();
    lemma_save_lines();
    lemma_layout(0);
    lemma_layout(1);
    lemma_layout(2);
    lemma_layout(3);
    let c1 = c.step(lines);
    let c2 = c1.step(lines);
    let c3 = c2.step(lines);
    let c4 = c3.step(lines);
    reveal_with_fuel(Core::run, 5);
    assert(c.run(lines, 4) == c4);
    assert(c.run(lines, 3) == c3 && c.run(lines, 2) == c2 && c.run(lines, 1) == c1);
}

/// The `i`th store of a vector register.
proof fn lemma_saves_one(before: Core, c: Core, i: int) -> (to: Core)
    requires
        measures(before),
        0 <= i < 8,
        c.at == 4 + i && c.ok && !c.done && c.z == before.z,
        c.g[Gpr::R8] == saved_at(before),
    ensures
        to == c.step(measure::bench_lines()),
        to == (Core { at: 5 + i, mem: to.mem, ..c }),
        forall|a: int| #[trigger]
            (to.mem)(a) == if saved_at(before) + 64 * i <= a < saved_at(before) + 64 * i + 64 {
                before.z[Zmm(i as u8)][a - saved_at(before) - 64 * i]
            } else {
                (c.mem)(a)
            },
{
    broadcast use Mem::lemma_at;

    lemma_save_lines();
    lemma_layout(4 + i);
    let l = measure::bench_save()[4 + i];
    assert(i == 0 || i == 1 || i == 2 || i == 3 || i == 4 || i == 5 || i == 6 || i == 7);
    assert(l == (Line::Store { m: Mem::at(Gpr::R8, (64 * i) as i32), z: Zmm(i as u8) }));
    let a = c.address(Mem::at(Gpr::R8, (64 * i) as i32));
    assert(a == saved_at(before) + 64 * i);
    assert(a % 64 == 0);
    c.step(measure::bench_lines())
}

/// Vector registers stored, up to `i` of them.
proof fn lemma_saves_some(before: Core, c: Core, i: nat)
    requires
        measures(before),
        i <= 8,
        c.at == 4 && c.ok && !c.done && c.z == before.z,
        c.g[Gpr::R8] == saved_at(before),
    ensures
        ({
            let to = c.run(measure::bench_lines(), i);
            let base = saved_at(before);
            &&& to == (Core { at: 4 + i as int, mem: to.mem, ..c })
            &&& forall|a: int| #[trigger]
                (to.mem)(a) == if base <= a < base + 64 * i {
                    before.z[Zmm(((a - base) / 64) as u8)][(a - base) % 64]
                } else {
                    (c.mem)(a)
                }
        }),
    decreases i,
{
    let lines = measure::bench_lines();
    if i > 0 {
        let j = (i - 1) as nat;
        lemma_saves_some(before, c, j);
        let mid = c.run(lines, j);
        let to = lemma_saves_one(before, mid, j as int);
        c.lemma_parts(lines, j, 1);
        assert(mid.run(lines, 1) == to) by {
            reveal_with_fuel(Core::run, 2);
        }
        let base = saved_at(before);
        assert forall|a: int| #[trigger]
            (to.mem)(a) == if base <= a < base + 64 * i {
                before.z[Zmm(((a - base) / 64) as u8)][(a - base) % 64]
            } else {
                (c.mem)(a)
            } by {
            if base + 64 * j <= a < base + 64 * i {
                assert((a - base) / 64 == j);
                assert((a - base) % 64 == a - base - 64 * j);
            } else {
                assert((to.mem)(a) == (mid.mem)(a));
            }
        }
    }
}

/// Saving.
proof fn lemma_saves(c: Core)
    requires
        measures(c),
    ensures
        ({
            let to = c.run(measure::bench_lines(), 12);
            &&& to.at == 12
            &&& to.ok
            &&& kept(c, to)
        }),
        forall|n: nat| n <= 12 ==> !(#[trigger] c.run(measure::bench_lines(), n)).done,
{
    let lines = measure::bench_lines();
    let base = saved_at(c);
    lemma_makes_room(c);
    let c4 = c.run(lines, 4);
    lemma_saves_some(c, c4, 8);
    c.lemma_parts(lines, 4, 8);
    let to = c.run(lines, 12);
    assert forall|n: nat| n <= 12 implies !(#[trigger] c.run(lines, n)).done by {
        if n > 4 {
            c.lemma_parts(lines, 4, (n - 4) as nat);
            lemma_saves_some(c, c4, (n - 4) as nat);
        }
    }
    assert forall|z: u8| z < 8 implies to.bytes(base + 64 * z) == #[trigger] c.z[Zmm(z)] by {
        assert forall|j: int| 0 <= j < 64 implies #[trigger] to.bytes(base + 64 * z)[j] == c.z[Zmm(
            z,
        )][j] by {
            let a = base + 64 * z + j;
            assert((a - base) / 64 == z && (a - base) % 64 == j);
            assert((to.mem)(a) == c.z[Zmm(z)][j]);
        }
        assert(to.bytes(base + 64 * z) =~= c.z[Zmm(z)]);
    }
}

/// One line of the body keeps what was saved, and stays in the body or comes
/// to the restoring.
proof fn lemma_body_step(before: Core, c: Core)
    requires
        kept(before, c),
        c.ok,
        12 <= c.at < tail(),
    ensures
        ({
            let to = c.step(measure::bench_lines());
            kept(before, to) && (!to.ok || 12 <= to.at <= tail())
        }),
{
    let lines = measure::bench_lines();
    lemma_layout(c.at);
    let to = c.step(lines);
    if let Line::Jump { label: n, forward, .. } = lines[c.at] {
        machine::lemma_ahead(lines, n, c.at);
        machine::lemma_behind(lines, n, c.at);
        let r = if forward {
            machine::ahead(lines, n, c.at)
        } else {
            machine::behind(lines, n, c.at)
        };
        if r != -1 {
            lemma_layout(r);
        }
    }
    assert(to.mem == c.mem);
    assert(forall|a: int| to.bytes(a) == c.bytes(a));
}

/// The `i`th load of a vector register.
proof fn lemma_restores_one(before: Core, c: Core, i: int)
    requires
        measures(before),
        0 <= i < 8,
        c.at == tail() + 1 + i && c.ok && !c.done,
        c.g[Gpr::R8] == saved_at(before),
    ensures
        c.step(measure::bench_lines()) == (Core {
            at: tail() + 2 + i,
            z: c.z.insert(Zmm(i as u8), c.bytes(saved_at(before) + 64 * i)),
            ..c
        }),
{
    broadcast use Mem::lemma_at;

    lemma_restore_lines();
    lemma_layout(tail() + 1 + i);
    let l = measure::bench_restore()[1 + i];
    assert(i == 0 || i == 1 || i == 2 || i == 3 || i == 4 || i == 5 || i == 6 || i == 7);
    assert(l == (Line::Load { z: Zmm(i as u8), m: Mem::at(Gpr::R8, (64 * i) as i32) }));
    let a = c.address(Mem::at(Gpr::R8, (64 * i) as i32));
    assert(a == saved_at(before) + 64 * i);
    assert(a % 64 == 0);
}

/// Vector registers loaded, up to `i` of them.
proof fn lemma_restores_some(before: Core, c: Core, i: nat)
    requires
        measures(before),
        i <= 8,
        kept(before, c),
        c.at == tail() + 1 && c.ok,
    ensures
        ({
            let to = c.run(measure::bench_lines(), i);
            &&& to == (Core { at: tail() + 1 + i, z: to.z, ..c })
            &&& forall|z: Zmm| z.0 >= 8 || z.0 < i ==> #[trigger] to.z[z] == before.z[z]
        }),
    decreases i,
{
    let lines = measure::bench_lines();
    if i > 0 {
        let j = (i - 1) as nat;
        lemma_restores_some(before, c, j);
        let mid = c.run(lines, j);
        lemma_restores_one(before, mid, j as int);
        c.lemma_parts(lines, j, 1);
        let to = mid.step(lines);
        assert(mid.run(lines, 1) == to) by {
            reveal_with_fuel(Core::run, 2);
        }
        let base = saved_at(before);
        assert(c.bytes(base + 64 * (j as u8)) == before.z[Zmm(j as u8)]);
        assert(mid.bytes(base + 64 * j) == c.bytes(base + 64 * j));
        assert forall|z: Zmm| z.0 >= 8 || z.0 < i implies #[trigger] to.z[z] == before.z[z] by {
            if z.0 == j {
                assert(z == Zmm(j as u8));
            } else {
                assert(mid.z[z] == before.z[z]);
            }
        }
    }
}

/// Restoring.
proof fn lemma_restores(before: Core, c: Core, n: nat)
    requires
        measures(before),
        kept(before, c),
        c.ok,
        c.at == tail(),
        c.run(measure::bench_lines(), n).done,
    ensures
        ({
            let to = c.run(measure::bench_lines(), n);
            &&& forall|z: Zmm| #[trigger] to.z[z] == before.z[z]
            &&& to.g[Gpr::Rsp] == before.g[Gpr::Rsp]
            &&& to.mem == c.mem
        }),
{
    let lines = measure::bench_lines();
    lemma_restore_lines();
    lemma_layout(tail());
    lemma_layout(tail() + 9);
    lemma_layout(tail() + 10);
    let c1 = c.step(lines);
    assert(c1 == (Core { at: tail() + 1, ..c }));
    assert(forall|a: int| c1.bytes(a) == c.bytes(a));
    assert(c.run(lines, 1) == c1) by {
        reveal_with_fuel(Core::run, 2);
    }
    lemma_restores_some(before, c1, 8);
    let c9 = c1.run(lines, 8);
    c.lemma_parts(lines, 1, 8);
    let c10 = c9.step(lines);
    let to = c10.step(lines);
    assert(c9.run(lines, 1) == c10 && c9.run(lines, 2) == to) by {
        reveal_with_fuel(Core::run, 3);
    }
    c.lemma_parts(lines, 9, 2);
    c.lemma_parts(lines, 9, 1);
    assert(to.done);
    if n < 11 {
        assert(!c.run(lines, n).done) by {
            if n == 0 {
            } else if n <= 9 {
                c.lemma_parts(lines, 1, (n - 1) as nat);
                lemma_restores_some(before, c1, (n - 1) as nat);
            } else {
                assert(c.run(lines, 10) == c10);
            }
        }
    } else {
        c.lemma_parts(lines, 11, (n - 11) as nat);
        to.lemma_stays(lines, (n - 11) as nat);
    }
}

/// The body, and what follows it.
proof fn lemma_body(before: Core, c: Core, n: nat)
    requires
        measures(before),
        kept(before, c),
        c.ok,
        12 <= c.at <= tail(),
        c.run(measure::bench_lines(), n).done,
    ensures
        ({
            let to = c.run(measure::bench_lines(), n);
            let base = saved_at(before);
            &&& forall|z: Zmm| #[trigger] to.z[z] == before.z[z]
            &&& to.g[Gpr::Rsp] == before.g[Gpr::Rsp]
            &&& forall|a: int|
                !(base <= a < base + 512) ==> #[trigger] (to.mem)(a) == (before.mem)(a)
        }),
    decreases n,
{
    let lines = measure::bench_lines();
    if c.at == tail() {
        lemma_restores(before, c, n);
    } else if n > 0 {
        lemma_body_step(before, c);
        let next = c.step(lines);
        if next.ok {
            lemma_body(before, next, (n - 1) as nat);
        } else {
            next.lemma_stays(lines, (n - 1) as nat);
        }
    }
}

/// Whenever `phi_bench` returns, whatever its kind, its vector registers and
/// its stack pointer are as they were, and it has written no memory but the
/// 512 bytes on the stack where it saves.
pub proof fn law_bench(c: Core, n: nat)
    requires
        measures(c),
        c.run(measure::bench_lines(), n).done,
    ensures
        ({
            let to = c.run(measure::bench_lines(), n);
            let base = saved_at(c);
            &&& forall|z: Zmm| #[trigger] to.z[z] == c.z[z]
            &&& to.g[Gpr::Rsp] == c.g[Gpr::Rsp]
            &&& forall|a: int| !(base <= a < base + 512) ==> #[trigger] (to.mem)(a) == (c.mem)(a)
        }),
{
    let lines = measure::bench_lines();
    lemma_saves(c);
    if n > 12 {
        c.lemma_parts(lines, 12, (n - 12) as nat);
        lemma_layout(0);
        lemma_body(c, c.run(lines, 12), (n - 12) as nat);
    }
}

} // verus!
