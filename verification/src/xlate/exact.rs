//! The card as far as division and square root use it, in exact numbers: one
//! float or double of every register, and what each step makes of it where
//! products, sums and the estimates of the reciprocals are those of the reals.
//! Every lane goes through the same steps and none reads another, so what
//! holds of one holds of all.
use crate::bits;
use crate::xlate::code::{Mvex, Rm};
use crate::xlate::meaning;
use crate::xlate::prog::{Prog, Step};
use vstd::prelude::*;

verus! {

/// What a register holds in the place of one float or one double.
pub enum Elem {
    /// A finite float, by its value.
    Float(real),
    /// A finite double, by its value.
    Double(real),
    /// A constant's dwords, the lower first.
    Bits(u32, u32),
    /// A double whose dwords were shifted right by 20: its sign and its
    /// exponent field.
    Top(real),
    /// An integer in the high dword.
    Field(int),
    /// An integer in the place of the exponent field.
    Raised(int),
    /// A double with its exponent field cleared.
    Cut(real),
    /// Something else.
    Other,
}

/// The bits of a mask that are for one float or double.
pub enum Select {
    /// All of it, or none.
    All(bool),
    /// The high dword of a double, or the low one.
    High,
    Low,
    Other,
}

/// Two to the power of `n`.
pub open spec fn power(n: int) -> real
    decreases (if n < 0 {
        -n
    } else {
        n
    }),
{
    if n == 0 {
        1int as real
    } else if n > 0 {
        (2int as real) * power(n - 1)
    } else {
        power(n + 1) / (2int as real)
    }
}

/// The magnitude of `x`.
pub open spec fn magnitude(x: real) -> real {
    if x < (0int as real) {
        -x
    } else {
        x
    }
}

/// The exponent field of the double `x`: the power of two at or below its
/// magnitude, biased by 1023.
pub open spec fn exponent(x: real) -> int {
    choose|e: int| #[trigger] power(e - 1023) <= magnitude(x) < power(e - 1022)
}

/// The value of a float's bits, for the constants that are numbers here.
pub open spec fn float_of(b: u32) -> Option<real> {
    if b == 0 {
        Some(0int as real)
    } else if b == 0x3f00_0000 {
        Some((1int as real) / (2int as real))
    } else if b == 0x3f80_0000 {
        Some(1int as real)
    } else if b == 0x3fc0_0000 {
        Some((3int as real) / (2int as real))
    } else {
        None
    }
}

/// The value of a double's bits, for the constants that are numbers here.
pub open spec fn double_of(low: u32, high: u32) -> Option<real> {
    if low != 0 {
        None
    } else if high == 0 {
        Some(0int as real)
    } else if high == 0x3fe0_0000 {
        Some((1int as real) / (2int as real))
    } else if high == 0xbfe0_0000 {
        Some(-((1int as real) / (2int as real)))
    } else if high == 0x3ff0_0000 {
        Some(1int as real)
    } else {
        None
    }
}

/// Whether the bits are those of an infinity.
pub open spec fn infinite(low: u32, high: u32, w: u8) -> bool {
    if w == 0 {
        low == 0x7f80_0000
    } else {
        low == 0 && high == 0x7ff0_0000
    }
}

/// The number an operand is, as a float or (`w` 1) as a double.
pub open spec fn number(x: Elem, w: u8) -> Option<real> {
    match x {
        Elem::Float(v) => if w == 0 {
            Some(v)
        } else {
            None
        },
        Elem::Double(v) => if w == 0 {
            None
        } else {
            Some(v)
        },
        Elem::Bits(low, high) => if w == 0 {
            float_of(low)
        } else {
            double_of(low, high)
        },
        _ => None,
    }
}

/// The float or double that a number is.
pub open spec fn holding(x: Option<real>, w: u8) -> Elem {
    match x {
        Some(v) => if w == 0 {
            Elem::Float(v)
        } else {
            Elem::Double(v)
        },
        None => Elem::Other,
    }
}

/// The integer in the high dword.
pub open spec fn field(x: Elem) -> Option<int> {
    match x {
        Elem::Field(n) => Some(n),
        Elem::Bits(_, high) => Some(high as int),
        _ => None,
    }
}

/// `c + s * a * b`.
pub open spec fn fused(s: real, a: Option<real>, b: Option<real>, c: Option<real>) -> Option<real> {
    match (a, b, c) {
        (Some(x), Some(y), Some(z)) => Some(z + s * (x * y)),
        _ => None,
    }
}

/// What an instruction of the bits makes of its operands, all of both.
pub open spec fn of_bits(op: u8, w: u8, a: Elem, b: Elem) -> Elem {
    match (a, b) {
        (Elem::Float(x), Elem::Bits(low, _)) => if op == 0xDB && w == 0 && low == 0x7fff_ffff {
            Elem::Float(magnitude(x))
        } else {
            Elem::Other
        },
        (Elem::Double(x), Elem::Bits(low, high)) => if op == 0xDB && w == 1 && low == 0xffff_ffff
            && high == 0x7fff_ffff {
            Elem::Double(magnitude(x))
        } else {
            Elem::Other
        },
        (Elem::Top(x), Elem::Bits(_, high)) => if op == 0xDB && w == 0 && high == 0x7ff {
            Elem::Field(exponent(x))
        } else {
            Elem::Other
        },
        _ => match (field(a), field(b)) {
            (Some(x), Some(y)) => if w != 0 {
                Elem::Other
            } else if op == 0xDB && y == 1 {
                Elem::Field(x % 2)
            } else if op == 0xFA {
                Elem::Field(x - y)
            } else if op == 0xFE {
                Elem::Field(x + y)
            } else {
                Elem::Other
            },
            _ => Elem::Other,
        },
    }
}

/// What a shift makes of its operand.
pub open spec fn shifted(which: u8, n: u8, x: Elem) -> Elem {
    if which == 2 && n == 20 {
        match x {
            Elem::Double(v) => Elem::Top(v),
            _ => Elem::Other,
        }
    } else if which == 4 && n == 1 {
        match field(x) {
            Some(v) => Elem::Field(v / 2),
            None => Elem::Other,
        }
    } else if which == 6 && n == 20 {
        match field(x) {
            Some(v) => Elem::Raised(v),
            None => Elem::Other,
        }
    } else {
        Elem::Other
    }
}

/// What an instruction of the bits leaves of `old` in one dword of a double.
pub open spec fn in_part(op: u8, s: Select, old: Elem, a: Elem, b: Elem) -> Elem {
    match (s, old, b) {
        (Select::High, Elem::Double(x), Elem::Bits(_, high)) => if op == 0xDB && a == old && high
            == 0x800f_ffff {
            Elem::Cut(x)
        } else {
            Elem::Other
        },
        (Select::High, Elem::Cut(x), Elem::Raised(n)) => if op == 0xEB && a == old && 1 <= n
            <= 2046 {
            Elem::Double(x * power(n - exponent(x)))
        } else {
            Elem::Other
        },
        (Select::Low, Elem::Raised(n), Elem::Raised(_)) => if op == 0xEF && a == old && b == old
            && 1 <= n <= 2046 {
            Elem::Double(power(n - 1023))
        } else {
            Elem::Other
        },
        _ => Elem::Other,
    }
}

/// One float or double of every register, the masks, and eax. `root` is the
/// estimate of the reciprocal of a square root.
pub struct Exact {
    pub z: Map<u8, Elem>,
    pub k: Map<u8, Select>,
    pub eax: u32,
    pub ok: bool,
    pub root: spec_fn(real) -> real,
}

impl Exact {
    /// An operand: of a constant, its dwords from `at` on.
    pub open spec fn operand(self, consts: Seq<Seq<u8>>, at: int, rm: Rm) -> Elem {
        match rm {
            Rm::Reg(r) => self.z[r],
            Rm::Const(i) => Elem::Bits(
                meaning::words(consts[i as int])[at],
                meaning::words(consts[i as int])[(at + 1) % 16],
            ),
            _ => Elem::Other,
        }
    }

    /// What an instruction computes, without its mask.
    pub open spec fn computed(self, m: Mvex, x: Elem) -> Elem {
        let w = m.w;
        let one = 1int as real;
        if m.map == 2 && m.pp == 1 && m.op == 0xB8 {
            holding(
                fused(one, number(self.z[m.vvvv], w), number(x, w), number(self.z[m.reg], w)),
                w,
            )
        } else if m.map == 2 && m.pp == 1 && m.op == 0xBC {
            holding(
                fused(-one, number(self.z[m.vvvv], w), number(x, w), number(self.z[m.reg], w)),
                w,
            )
        } else if m.map == 1 && m.pp == w && m.op == 0x59 {
            holding(
                fused(one, number(self.z[m.vvvv], w), number(x, w), Some(0int as real)),
                w,
            )
        } else if m.map == 1 && m.pp == w && m.op == 0x58 {
            holding(
                fused(one, number(self.z[m.vvvv], w), Some(one), number(x, w)),
                w,
            )
        } else if m.map == 1 && m.pp == w && m.op == 0x28 {
            x
        } else if m.map == 2 && m.pp == 1 && w == 0 && m.op == 0xCA {
            match x {
                Elem::Float(v) => if v == (0int as real) {
                    Elem::Other
                } else {
                    Elem::Float(one / v)
                },
                _ => Elem::Other,
            }
        } else if m.map == 2 && m.pp == 1 && w == 0 && m.op == 0xCB {
            match x {
                Elem::Float(v) => Elem::Float((self.root)(v)),
                _ => Elem::Other,
            }
        } else if m.map == 1 && m.pp == 1 && w == 1 && m.op == 0x5A {
            match x {
                Elem::Double(v) => Elem::Float(v),
                _ => Elem::Other,
            }
        } else if m.map == 1 && m.pp == 0 && w == 0 && m.op == 0x5A {
            match x {
                Elem::Float(v) => Elem::Double(v),
                _ => Elem::Other,
            }
        } else if m.map == 1 && m.pp == 1 && w == 0 && m.op == 0x72 {
            shifted(m.reg, m.imm->0, x)
        } else if m.map == 1 && m.pp == 1 {
            of_bits(m.op, w, self.z[m.vvvv], x)
        } else {
            Elem::Other
        }
    }

    /// Whether a comparison holds: equal (0), or not ordered (3), which no
    /// two finite numbers are.
    pub open spec fn compared(self, m: Mvex, x: Elem) -> Select {
        let a = number(self.z[m.vvvv], m.w);
        if m.imm == Some(3u8) && a is Some && number(x, m.w) is Some {
            Select::All(false)
        } else if m.imm == Some(0u8) && a is Some && number(x, m.w) is Some {
            Select::All(a == number(x, m.w))
        } else if m.imm == Some(0u8) && a is Some && (x matches Elem::Bits(low, high) && infinite(
            low,
            high,
            m.w,
        )) {
            Select::All(false)
        } else {
            Select::Other
        }
    }

    /// After an instruction.
    pub open spec fn mvex(self, consts: Seq<Seq<u8>>, at: int, m: Mvex) -> Exact {
        let x = self.operand(consts, at, m.rm);
        if m.map == 1 && m.pp == m.w && m.op == 0xC2 {
            Exact {
                k: self.k.insert(
                    m.reg,
                    if m.k == 0 {
                        self.compared(m, x)
                    } else {
                        Select::Other
                    },
                ),
                ..self
            }
        } else {
            let d = if m.map == 1 && m.op == 0x72 {
                m.vvvv
            } else {
                m.reg
            };
            let v = if m.k == 0 {
                self.computed(m, x)
            } else {
                match self.k[m.k] {
                    Select::All(true) => self.computed(m, x),
                    Select::All(false) => self.z[d],
                    s => if m.map == 1 && m.pp == 1 && m.w == 0 && m.op != 0x72 {
                        in_part(m.op, s, self.z[d], self.z[m.vvvv], x)
                    } else {
                        Elem::Other
                    },
                }
            };
            Exact { z: self.z.insert(d, v), ..self }
        }
    }

    /// After a step.
    #[verifier::opaque]
    pub open spec fn step(self, consts: Seq<Seq<u8>>, at: int, s: Step) -> Exact {
        match s {
            Step::Rax | Step::Rcx | Step::K | Step::Flags | Step::Temp(_) => self,
            Step::Mvex(m) => self.mvex(consts, at, m),
            Step::VexK { op, reg, rm } => Exact {
                k: self.k.insert(
                    reg,
                    if op == 0x92 && rm == 0 && self.eax == 0xaaaa {
                        Select::High
                    } else if op == 0x92 && rm == 0 && self.eax == 0x5555 {
                        Select::Low
                    } else {
                        Select::Other
                    },
                ),
                ..self
            },
            Step::Raw(b) => if b.len() == 5 && b[0] == 0xb8 {
                Exact { eax: bits::word32(b, 1), ..self }
            } else {
                Exact { ok: false, ..self }
            },
            _ => Exact { ok: false, ..self },
        }
    }

    /// After steps, in order.
    pub open spec fn run(self, consts: Seq<Seq<u8>>, at: int, steps: Seq<Step>) -> Exact
        decreases steps.len(),
    {
        if steps.len() == 0 {
            self
        } else {
            self.run(consts, at, steps.drop_last()).step(consts, at, steps.last())
        }
    }
}

impl Prog {
    /// What the sequence makes of one float or double of every register.
    pub open spec fn exactly(self, consts: Seq<Seq<u8>>, at: int, s: Exact) -> Exact {
        s.run(consts, at, self.steps)
    }
}

/// One more step.
pub proof fn lemma_step(p: Prog, consts: Seq<Seq<u8>>, at: int, s: Exact, x: Step)
    ensures
        p.step(x).exactly(consts, at, s) == p.exactly(consts, at, s).step(consts, at, x),
{
    assert(p.step(x).steps.drop_last() =~= p.steps);
}

/// One more instruction.
pub proof fn lemma_mvex(p: Prog, consts: Seq<Seq<u8>>, at: int, s: Exact, m: Mvex)
    ensures
        p.mvex(m.map, m.pp, m.w, m.op, m.reg, m.vvvv, m.rm, m.k, m.sss, m.imm).exactly(
            consts,
            at,
            s,
        ) == p.exactly(consts, at, s).mvex(consts, at, m),
{
    lemma_step(p, consts, at, s, Step::Mvex(m));
    reveal(Exact::step);
}

/// A move.
pub proof fn lemma_vmov(p: Prog, consts: Seq<Seq<u8>>, at: int, s: Exact, d: u8, x: Rm, w: u8)
    ensures
        p.vmov(d, x, 0, w).exactly(consts, at, s) == ({
            let e = p.exactly(consts, at, s);
            Exact { z: e.z.insert(d, e.operand(consts, at, x)), ..e }
        }),
{
    lemma_mvex(
        p,
        consts,
        at,
        s,
        Mvex { map: 1, pp: w, w, op: 0x28, reg: d, vvvv: 0, rm: x, k: 0, sss: 0, imm: None },
    );
}

/// A move under a mask that selects nothing.
pub proof fn lemma_no_vmov(
    p: Prog,
    consts: Seq<Seq<u8>>,
    at: int,
    s: Exact,
    d: u8,
    x: Rm,
    k: u8,
    w: u8,
)
    requires
        k != 0,
        p.exactly(consts, at, s).k[k] == Select::All(false),
        p.exactly(consts, at, s).z.dom().contains(d),
    ensures
        p.vmov(d, x, k, w).exactly(consts, at, s) == p.exactly(consts, at, s),
{
    lemma_mvex(
        p,
        consts,
        at,
        s,
        Mvex { map: 1, pp: w, w, op: 0x28, reg: d, vvvv: 0, rm: x, k, sss: 0, imm: None },
    );
    let e = p.exactly(consts, at, s);
    assert(e.z.insert(d, e.z[d]) =~= e.z);
}

/// A product.
pub proof fn lemma_vmulp(
    p: Prog,
    consts: Seq<Seq<u8>>,
    at: int,
    s: Exact,
    d: u8,
    a: u8,
    x: Rm,
    w: u8,
)
    requires
        w <= 1,
        number(p.exactly(consts, at, s).z[a], w) is Some,
        number(p.exactly(consts, at, s).operand(consts, at, x), w) is Some,
    ensures
        p.vmulp(d, a, x, w).exactly(consts, at, s) == ({
            let e = p.exactly(consts, at, s);
            let v = number(e.z[a], w)->0 * number(e.operand(consts, at, x), w)->0;
            Exact { z: e.z.insert(d, holding(Some(v), w)), ..e }
        }),
{
    let m = Mvex { map: 1, pp: w, w, op: 0x59, reg: d, vvvv: a, rm: x, k: 0, sss: 0, imm: None };
    lemma_mvex(p, consts, at, s, m);
    let e = p.exactly(consts, at, s);
    let u = number(e.z[a], w)->0;
    let v = number(e.operand(consts, at, x), w)->0;
    assert((0int as real) + (1int as real) * (u * v) == u * v);
}

/// A fused multiply-add: `d + a * x`, or for `op` BC `d - a * x`.
pub proof fn lemma_fma(
    p: Prog,
    consts: Seq<Seq<u8>>,
    at: int,
    s: Exact,
    op: u8,
    d: u8,
    a: u8,
    x: Rm,
    w: u8,
)
    requires
        op == 0xB8 || op == 0xBC,
        w <= 1,
        number(p.exactly(consts, at, s).z[a], w) is Some,
        number(p.exactly(consts, at, s).z[d], w) is Some,
        number(p.exactly(consts, at, s).operand(consts, at, x), w) is Some,
    ensures
        p.fma(op, d, a, x, w).exactly(consts, at, s) == ({
            let e = p.exactly(consts, at, s);
            let v = number(e.z[a], w)->0 * number(e.operand(consts, at, x), w)->0;
            let c = number(e.z[d], w)->0;
            Exact {
                z: e.z.insert(
                    d,
                    holding(
                        Some(
                            if op == 0xB8 {
                                c + v
                            } else {
                                c - v
                            },
                        ),
                        w,
                    ),
                ),
                ..e
            }
        }),
{
    let m = Mvex { map: 2, pp: 1, w, op, reg: d, vvvv: a, rm: x, k: 0, sss: 0, imm: None };
    lemma_mvex(p, consts, at, s, m);
    let e = p.exactly(consts, at, s);
    let v = number(e.z[a], w)->0 * number(e.operand(consts, at, x), w)->0;
    let c = number(e.z[d], w)->0;
    assert(c + (1int as real) * v == c + v);
    assert(c + (-(1int as real)) * v == c - v);
}

/// A comparison of finite numbers that are not equal, or with an infinity.
pub proof fn lemma_unequal(
    p: Prog,
    consts: Seq<Seq<u8>>,
    at: int,
    s: Exact,
    kd: u8,
    a: u8,
    x: Rm,
    pred: u8,
    w: u8,
)
    requires
        w <= 1,
        pred == 0 || pred == 3,
        number(p.exactly(consts, at, s).z[a], w) is Some,
        ({
            let e = p.exactly(consts, at, s);
            let y = e.operand(consts, at, x);
            ||| number(y, w) is Some && (pred == 3 || number(y, w) != number(e.z[a], w))
            ||| pred == 0 && number(y, w) is None && (y matches Elem::Bits(low, high) && infinite(
                low,
                high,
                w,
            ))
        }),
    ensures
        p.compare(kd, a, x, pred, 0, w).exactly(consts, at, s) == ({
            let e = p.exactly(consts, at, s);
            Exact { k: e.k.insert(kd, Select::All(false)), ..e }
        }),
{
    let m = Mvex {
        map: 1,
        pp: w,
        w,
        op: 0xC2,
        reg: kd,
        vvvv: a,
        rm: x,
        k: 0,
        sss: 0,
        imm: Some(pred),
    };
    lemma_mvex(p, consts, at, s, m);
}

} // verus!
