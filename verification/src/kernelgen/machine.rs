//! Enough of the card's core to say what a kernel does: its lines, the text
//! they are written as, and what each of them changes when it is run.
use crate::kernelgen::listing::Listing;
use crate::kernelgen::vector::{Op, Unit};
use crate::mvex::encode::InsnV;
use crate::mvex::reg::{Gpr, Mem, Zmm};
use vstd::prelude::*;

verus! {

/// When a jump is taken.
pub enum When {
    Always,
    Zero,
    NotZero,
    Equal,
    NotEqual,
    Below,
    NotBelow,
}

impl When {
    /// The jump's mnemonic.
    pub open spec fn word(self) -> Seq<char> {
        match self {
            When::Always => "jmp"@,
            When::Zero => "jz"@,
            When::NotZero => "jnz"@,
            When::Equal => "je"@,
            When::NotEqual => "jne"@,
            When::Below => "jb"@,
            When::NotBelow => "jae"@,
        }
    }
}

/// A line of a kernel.
pub enum Line {
    /// `cmp $n, %g`.
    Against { n: int, g: Gpr },
    /// `add $n, %g`.
    Plus { n: int, g: Gpr },
    /// `sub $n, %g`.
    Minus { n: int, g: Gpr },
    /// `and $-64, %g`.
    Align { g: Gpr },
    /// `mov $n, %g`.
    Put { n: int, g: Gpr },
    /// `mov %from, %to`.
    Copy { from: Gpr, to: Gpr },
    /// `test %g, %g`.
    Test { g: Gpr },
    /// `dec %g`.
    Dec { g: Gpr },
    /// A load of 64 bytes.
    Load { z: Zmm, m: Mem },
    /// A store of 64 bytes.
    Store { m: Mem, z: Zmm },
    /// An instruction of the vector unit.
    Op { op: Op },
    /// Another vector instruction, whose result goes to `z`.
    Vector { insn: InsnV, z: Zmm },
    /// A prefetch.
    Fetch { insn: InsnV },
    /// `mov $n, %eax`.
    Small { n: int },
    /// `mov 8(%rsp), %r11`.
    Argument,
    /// `lea (%from,%r11,by), %rax`, from rdi or rax.
    Lea { from: Gpr, by: int },
    /// `push %g` and `pop %g`, of a register that a caller keeps things in.
    Push { g: Gpr },
    Pop { g: Gpr },
    /// `mov disp(%base), %to`.
    Pull { disp: int, base: Gpr, to: Gpr },
    /// A label, indented as the instructions are or not.
    Mark { label: u8, indented: bool },
    /// A jump to the next place with the label, or to the last one before it.
    Jump { when: When, label: u8, forward: bool },
    Ret,
}

/// The digit of a label.
pub open spec fn digit(n: u8) -> Seq<char> {
    match n {
        1 => "1"@,
        2 => "2"@,
        3 => "3"@,
        4 => "4"@,
        5 => "5"@,
        6 => "6"@,
        7 => "7"@,
        8 => "8"@,
        _ => "9"@,
    }
}

impl Listing {
    /// With a line appended.
    pub open spec fn line(self, l: Line) -> Listing {
        match l {
            Line::Against { n, g } => self.t_imm("cmp"@, n, g),
            Line::Plus { n, g } => self.t_imm("add"@, n, g),
            Line::Minus { n, g } => self.t_imm("sub"@, n, g),
            Line::Align { g } => self.t_imm("and"@, -64, g),
            Line::Put { n, g } => self.t_imm("mov"@, n, g),
            Line::Copy { from, to } => self.mov_reg(from, to),
            Line::Test { g } => self.test_reg(g),
            Line::Dec { g } => self.dec_reg(g),
            Line::Load { z, m } => self.i(InsnV::vmovaps_load(z, m)),
            Line::Store { m, z } => self.i(InsnV::vmovaps_store(m, z)),
            Line::Op { op } => self.i(op.insn()),
            Line::Vector { insn, .. } => self.i(insn),
            Line::Fetch { insn } => self.i(insn),
            Line::Small { n } => self.lit("    mov $"@).num(n).lit(", %eax\n"@),
            Line::Argument => self.t("mov 8(%rsp), %r11"@),
            Line::Lea { from, by } => self.lit(
                if from == Gpr::Rdi {
                    "    lea (%rdi,%r11,"@
                } else {
                    "    lea (%rax,%r11,"@
                },
            ).num(by).lit("), %rax\n"@),
            Line::Push { g } => self.t(
                if g == Gpr::Rbx {
                    "push %rbx"@
                } else if g == Gpr::R13 {
                    "push %r13"@
                } else if g == Gpr::R14 {
                    "push %r14"@
                } else {
                    "push %r15"@
                },
            ),
            Line::Pop { g } => self.t(
                if g == Gpr::Rbx {
                    "pop %rbx"@
                } else if g == Gpr::R13 {
                    "pop %r13"@
                } else if g == Gpr::R14 {
                    "pop %r14"@
                } else {
                    "pop %r15"@
                },
            ),
            Line::Pull { disp, base, to } => self.lit("    mov "@).num(disp).lit("(%"@).reg(base).lit(
                "), %"@,
            ).reg(to).lit("\n"@),
            Line::Mark { label, indented } => self.mark(digit(label), indented),
            Line::Jump { when, label, forward } => self.jump(when.word(), digit(label), forward),
            Line::Ret => self.t("ret"@),
        }
    }

    /// With the lines of `s` appended, in order.
    #[verifier::opaque]
    pub open spec fn lines(self, s: Seq<Line>) -> Listing
        decreases s.len(),
    {
        if s.len() == 0 {
            self
        } else {
            self.lines(s.drop_last()).line(s.last())
        }
    }

    /// No lines.
    pub broadcast proof fn lemma_none(self)
        ensures
            #[trigger] self.lines(Seq::<Line>::empty()) == self,
    {
        reveal(Listing::lines);
    }

    /// One more line.
    pub broadcast proof fn lemma_push(self, s: Seq<Line>, l: Line)
        ensures
            #[trigger] self.lines(s.push(l)) == self.lines(s).line(l),
    {
        reveal(Listing::lines);
        assert(s.push(l).drop_last() =~= s);
    }

    /// The lines of two lists, one after the other.
    pub proof fn lemma_lines(self, a: Seq<Line>, b: Seq<Line>)
        ensures
            self.lines(a + b) == self.lines(a).lines(b),
        decreases b.len(),
    {
        reveal(Listing::lines);
        if b.len() == 0 {
            assert(a + b =~= a);
        } else {
            assert((a + b).drop_last() =~= a + b.drop_last());
            self.lemma_lines(a, b.drop_last());
        }
    }
}

/// Instructions of the vector unit as lines.
pub open spec fn lines_of(ops: Seq<Op>) -> Seq<Line> {
    Seq::new(ops.len(), |i: int| Line::Op { op: ops[i] })
}

impl Listing {
    /// Instructions are written as the lines they are.
    pub proof fn lemma_ops(self, insns: Seq<InsnV>, ops: Seq<Op>)
        requires
            insns.len() == ops.len(),
            forall|i: int| 0 <= i < ops.len() ==> insns[i] == (#[trigger] ops[i]).insn(),
        ensures
            self.all(insns) == self.lines(lines_of(ops)),
        decreases ops.len(),
    {
        reveal(Listing::lines);
        reveal(Listing::all);
        if ops.len() > 0 {
            assert forall|i: int| 0 <= i < ops.len() - 1 implies insns.drop_last()[i] == (
            #[trigger] ops.drop_last()[i]).insn() by {
                assert(ops.drop_last()[i] == ops[i]);
            }
            self.lemma_ops(insns.drop_last(), ops.drop_last());
            assert(lines_of(ops).drop_last() =~= lines_of(ops.drop_last()));
            assert(insns.last() == ops[ops.len() - 1].insn());
        }
    }
}

/// A value in a general register.
pub open spec fn wrap(x: int) -> int {
    x % 0x1_0000_0000_0000_0000
}

/// Words with the one at `a` made `x`.
pub open spec fn put(quad: spec_fn(int) -> int, a: int, x: int) -> spec_fn(int) -> int {
    |b: int|
        if b == a {
            x
        } else {
            quad(b)
        }
}

/// Whether a line can be passed: it is no jump and no return, nor a move of
/// whole vectors byte by byte.
pub open spec fn passable(l: Line) -> bool {
    match l {
        Line::Jump { .. } | Line::Ret | Line::Load { .. } | Line::Store { .. } | Line::Vector {
            ..
        } => false,
        _ => true,
    }
}

/// The core as it runs a kernel: the line it comes to, its registers and what
/// the last instruction that sets them left in the flags, and memory, byte by
/// byte. What a vector instruction other than a move computes is left open.
pub struct Core {
    pub at: int,
    pub g: Map<Gpr, int>,
    pub z: Map<Zmm, Seq<u8>>,
    pub mem: spec_fn(int) -> u8,
    pub zero: bool,
    pub below: bool,
    /// Whether the kernel has returned.
    pub done: bool,
    /// Whether everything it ran could be run.
    pub ok: bool,
    /// The vector unit of a kernel that computes, lane by lane.
    pub unit: Unit,
    /// The 64-bit words of memory that such a kernel moves to and from general
    /// registers: its stack and the pointers it is given, which its vectors
    /// are apart from.
    pub quad: spec_fn(int) -> int,
    pub alu: spec_fn(InsnV, Map<Zmm, Seq<u8>>, spec_fn(int) -> u8, Map<Gpr, int>) -> Seq<u8>,
}

/// The label `n` from line `i` on, or -1.
pub open spec fn ahead(lines: Seq<Line>, n: u8, i: int) -> int
    decreases lines.len() - i,
{
    if i < 0 || i >= lines.len() {
        -1
    } else if lines[i] matches Line::Mark { label: m, .. } && m == n {
        i
    } else {
        ahead(lines, n, i + 1)
    }
}

/// The label `n` at line `i` or before it, or -1.
pub open spec fn behind(lines: Seq<Line>, n: u8, i: int) -> int
    decreases i + 1,
{
    if i < 0 || i >= lines.len() {
        -1
    } else if lines[i] matches Line::Mark { label: m, .. } && m == n {
        i
    } else {
        behind(lines, n, i - 1)
    }
}

/// What is found is a label.
pub proof fn lemma_ahead(lines: Seq<Line>, n: u8, i: int)
    ensures
        ({
            let r = ahead(lines, n, i);
            r == -1 || (0 <= r < lines.len() && lines[r] is Mark)
        }),
    decreases lines.len() - i,
{
    if 0 <= i < lines.len() {
        lemma_ahead(lines, n, i + 1);
    }
}

pub proof fn lemma_behind(lines: Seq<Line>, n: u8, i: int)
    ensures
        ({
            let r = behind(lines, n, i);
            r == -1 || (0 <= r < lines.len() && lines[r] is Mark)
        }),
    decreases i + 1,
{
    if 0 <= i < lines.len() {
        lemma_behind(lines, n, i - 1);
    }
}

/// The label found ahead is the first one.
pub proof fn lemma_ahead_is(lines: Seq<Line>, n: u8, i: int, to: int)
    requires
        0 <= i <= to < lines.len(),
        lines[to] matches Line::Mark { label: m, .. } && m == n,
        forall|k: int| i <= k < to ==> !((#[trigger] lines[k]) matches Line::Mark { label: m, .. } && m == n),
    ensures
        ahead(lines, n, i) == to,
    decreases to - i,
{
    if i < to {
        assert(!(lines[i] matches Line::Mark { label: m, .. } && m == n));
        lemma_ahead_is(lines, n, i + 1, to);
    }
}

/// The label found behind is the last one.
pub proof fn lemma_behind_is(lines: Seq<Line>, n: u8, i: int, to: int)
    requires
        0 <= to <= i < lines.len(),
        lines[to] matches Line::Mark { label: m, .. } && m == n,
        forall|k: int| to < k <= i ==> !((#[trigger] lines[k]) matches Line::Mark { label: m, .. } && m == n),
    ensures
        behind(lines, n, i) == to,
    decreases i - to,
{
    if to < i {
        assert(!(lines[i] matches Line::Mark { label: m, .. } && m == n));
        lemma_behind_is(lines, n, i - 1, to);
    }
}

impl Core {
    /// The address of an operand.
    pub open spec fn address(self, m: Mem) -> int {
        wrap(self.g[m.spec_base()] + m.spec_disp())
    }

    /// The 64 bytes at an address.
    pub open spec fn bytes(self, a: int) -> Seq<u8> {
        Seq::new(64, |j: int| (self.mem)(a + j))
    }

    /// Whether a jump is taken.
    pub open spec fn taken(self, when: When) -> bool {
        match when {
            When::Always => true,
            When::Zero | When::Equal => self.zero,
            When::NotZero | When::NotEqual => !self.zero,
            When::Below => self.below,
            When::NotBelow => !self.below,
        }
    }

    /// With another value in a general register, and the flags it leaves.
    pub open spec fn counted(self, g: Gpr, x: int, below: bool) -> Core {
        Core { g: self.g.insert(g, wrap(x)), zero: wrap(x) == 0, below, ..self }
    }

    /// What a line other than a jump or the return changes. A move of 64 bytes
    /// that is not on their boundary cannot be run.
    pub open spec fn ran(self, l: Line) -> Core {
        match l {
            Line::Against { n, g } => Core {
                zero: self.g[g] == n,
                below: self.g[g] < n,
                ..self
            },
            Line::Plus { n, g } => self.counted(
                g,
                self.g[g] + n,
                self.g[g] + n >= 0x1_0000_0000_0000_0000,
            ),
            Line::Minus { n, g } => self.counted(g, self.g[g] - n, self.g[g] < n),
            Line::Align { g } => self.counted(g, self.g[g] - self.g[g] % 64, false),
            Line::Put { n, g } => Core { g: self.g.insert(g, n), ..self },
            Line::Copy { from, to } => Core { g: self.g.insert(to, self.g[from]), ..self },
            Line::Test { g } => Core { zero: self.g[g] == 0, below: false, ..self },
            Line::Dec { g } => self.counted(g, self.g[g] - 1, self.below),
            Line::Load { z, m } => if self.address(m) % 64 == 0 {
                Core { z: self.z.insert(z, self.bytes(self.address(m))), ..self }
            } else {
                Core { ok: false, ..self }
            },
            Line::Store { m, z } => {
                let a = self.address(m);
                if a % 64 == 0 {
                    Core {
                        mem: |b: int|
                            if a <= b < a + 64 {
                                self.z[z][b - a]
                            } else {
                                (self.mem)(b)
                            },
                        ..self
                    }
                } else {
                    Core { ok: false, ..self }
                }
            },
            Line::Op { op } => if op.runs(self.g) {
                Core { unit: self.unit.did(op, self.g), ..self }
            } else {
                Core { ok: false, ..self }
            },
            Line::Small { n } => Core { g: self.g.insert(Gpr::Rax, n), ..self },
            Line::Argument => Core {
                g: self.g.insert(Gpr::R11, (self.quad)(self.g[Gpr::Rsp] + 8)),
                ..self
            },
            Line::Lea { from, by } => Core {
                g: self.g.insert(Gpr::Rax, wrap(self.g[from] + by * self.g[Gpr::R11])),
                ..self
            },
            Line::Push { g } => Core {
                g: self.g.insert(Gpr::Rsp, self.g[Gpr::Rsp] - 8),
                quad: put(self.quad, self.g[Gpr::Rsp] - 8, self.g[g]),
                ..self
            },
            Line::Pop { g } => Core {
                g: self.g.insert(g, (self.quad)(self.g[Gpr::Rsp])).insert(
                    Gpr::Rsp,
                    self.g[Gpr::Rsp] + 8,
                ),
                ..self
            },
            Line::Pull { disp, base, to } => Core {
                g: self.g.insert(to, (self.quad)(self.g[base] + disp)),
                ..self
            },
            Line::Vector { insn, z } => Core {
                z: self.z.insert(z, (self.alu)(insn, self.z, self.mem, self.g)),
                ..self
            },
            _ => self,
        }
    }

    /// After one more line. A jump to a label that is not there cannot be run.
    pub open spec fn step(self, lines: Seq<Line>) -> Core {
        if self.done || !self.ok {
            self
        } else if !(0 <= self.at < lines.len()) {
            Core { ok: false, ..self }
        } else {
            match lines[self.at] {
                Line::Ret => Core { done: true, ..self },
                Line::Jump { when, label, forward } => {
                    let to = if forward {
                        ahead(lines, label, self.at)
                    } else {
                        behind(lines, label, self.at)
                    };
                    if !self.taken(when) {
                        Core { at: self.at + 1, ..self }
                    } else if to == -1 {
                        Core { ok: false, ..self }
                    } else {
                        Core { at: to, ..self }
                    }
                },
                l => (Core { at: self.at + 1, ..self }).ran(l),
            }
        }
    }

    /// After `n` more lines.
    pub open spec fn run(self, lines: Seq<Line>, n: nat) -> Core
        decreases n,
    {
        if n == 0 {
            self
        } else {
            self.step(lines).run(lines, (n - 1) as nat)
        }
    }

    /// Whether the core comes to the state `to`.
    pub open spec fn reaches(self, lines: Seq<Line>, to: Core) -> bool {
        exists|n: nat| #[trigger] self.run(lines, n) == to
    }

    /// A run is one part of it after another.
    pub proof fn lemma_parts(self, lines: Seq<Line>, m: nat, n: nat)
        ensures
            self.run(lines, m + n) == self.run(lines, m).run(lines, n),
        decreases m,
    {
        if m > 0 {
            self.step(lines).lemma_parts(lines, (m - 1) as nat, n);
            assert((m + n - 1) as nat == (m - 1) as nat + n);
        }
    }

    /// What is reached from a state that is reached is reached.
    pub proof fn lemma_on(self, lines: Seq<Line>, mid: Core, to: Core)
        requires
            self.reaches(lines, mid),
            mid.reaches(lines, to),
        ensures
            self.reaches(lines, to),
    {
        let m = choose|m: nat| #[trigger] self.run(lines, m) == mid;
        let n = choose|n: nat| #[trigger] mid.run(lines, n) == to;
        self.lemma_parts(lines, m, n);
    }

    /// After lines none of which is a jump or the return.
    pub open spec fn passed(self, s: Seq<Line>) -> Core
        decreases s.len(),
    {
        if s.len() == 0 {
            self
        } else {
            self.passed(s.drop_last()).ran(s.last())
        }
    }

    /// Lines without a jump are run one after another.
    pub proof fn lemma_straight(self, lines: Seq<Line>, s: Seq<Line>)
        requires
            0 <= self.at,
            self.at + s.len() <= lines.len(),
            forall|i: int|
                0 <= i < s.len() ==> lines[self.at + i] == #[trigger] s[i] && passable(s[i]),
            !self.done,
            self.passed(s).ok,
        ensures
            self.ok,
            self.run(lines, s.len()) == (Core { at: self.at + s.len(), ..self.passed(s) }),
            !self.passed(s).done,
        decreases s.len(),
    {
        if s.len() > 0 {
            let t = s.drop_last();
            let l = s.last();
            let n = s.len() - 1;
            assert(s[n] == l);
            assert forall|i: int| 0 <= i < t.len() implies lines[self.at + i] == #[trigger] t[i]
                && passable(t[i]) by {
                assert(t[i] == s[i]);
            }
            assert(self.passed(t).ok);
            self.lemma_straight(lines, t);
            self.lemma_parts(lines, t.len(), 1);
            let c = self.run(lines, t.len());
            assert(c.run(lines, 1) == c.step(lines)) by {
                reveal_with_fuel(Core::run, 2);
            }
            assert(lines[c.at] == l);
        }
    }

    /// Instructions of the vector unit that can all be run.
    pub proof fn lemma_unit(self, ops: Seq<Op>)
        requires
            forall|i: int| 0 <= i < ops.len() ==> (#[trigger] ops[i]).runs(self.g),
        ensures
            self.passed(lines_of(ops)) == (Core { unit: self.unit.all(ops, self.g), ..self }),
        decreases ops.len(),
    {
        if ops.len() > 0 {
            let s = ops.drop_last();
            assert forall|i: int| 0 <= i < s.len() implies (#[trigger] s[i]).runs(self.g) by {
                assert(s[i] == ops[i]);
            }
            self.lemma_unit(s);
            assert(lines_of(ops).drop_last() =~= lines_of(s));
            assert(ops[ops.len() - 1].runs(self.g));
        }
    }

    /// One more line.
    pub broadcast proof fn lemma_pass(self, s: Seq<Line>, l: Line)
        ensures
            #[trigger] self.passed(s.push(l)) == self.passed(s).ran(l),
    {
        assert(s.push(l).drop_last() =~= s);
    }

    /// One part of the lines after another.
    pub proof fn lemma_passed(self, a: Seq<Line>, b: Seq<Line>)
        ensures
            self.passed(a + b) == self.passed(a).passed(b),
        decreases b.len(),
    {
        if b.len() == 0 {
            assert(a + b =~= a);
        } else {
            assert((a + b).drop_last() =~= a + b.drop_last());
            self.lemma_passed(a, b.drop_last());
        }
    }

    /// A kernel that has returned stays as it is.
    pub proof fn lemma_stays(self, lines: Seq<Line>, n: nat)
        requires
            self.done || !self.ok,
        ensures
            self.run(lines, n) == self,
        decreases n,
    {
        if n > 0 {
            self.lemma_stays(lines, (n - 1) as nat);
        }
    }
}

} // verus!
