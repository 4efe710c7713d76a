//! The card's vector unit as the kernels that compute use it: sixteen lanes
//! to a register, memory element by element, and what every instruction does
//! to them. What the arithmetic itself gives is a parameter, so that what is
//! proved of a kernel holds of whatever rounding the unit has.
use crate::mvex::conv::{ExpAdj, Round};
use crate::mvex::encode::InsnV;
use crate::mvex::reg::{Conv, Gpr, Mem, Src, Zmm, K};
use vstd::prelude::*;

verus! {

/// What a lane holds: bits, as the integer instructions take them, or the
/// number that a float's bits stand for.
pub enum Lane {
    Bits(u32),
    Num(real),
}

/// What an element of memory is read or written as.
pub enum Form {
    /// A lane, as it is.
    Word,
    /// A float16.
    Half,
    /// A byte, unsigned or signed, as a float.
    Byte,
    Signed,
    /// A byte, unsigned or signed, as an integer.
    IntByte,
    IntSigned,
}

impl Form {
    /// The bytes of an element.
    pub open spec fn width(self) -> int {
        match self {
            Form::Word => 4,
            Form::Half => 2,
            _ => 1,
        }
    }

    /// What a conversion reads, in a float or an integer instruction.
    pub open spec fn of(conv: Conv, ints: bool) -> Form {
        match conv {
            Conv::F16 => Form::Half,
            Conv::U8 => if ints {
                Form::IntByte
            } else {
                Form::Byte
            },
            Conv::S8 => if ints {
                Form::IntSigned
            } else {
                Form::Signed
            },
            _ => Form::Word,
        }
    }
}

/// Functions of one lane.
pub enum One {
    /// Rounded down to a whole number.
    Floor,
    /// Rounded to an integer, towards zero.
    Trunc,
    /// To fixed point with 24 bits after the point, to the nearest.
    Fixed,
    /// Two to the power of a fixed-point number.
    Exp2,
    /// The reciprocal, to 23 bits.
    Recip,
    /// An integer as a float.
    Number,
    /// Shifted right or left.
    Shr(u8),
    Shl(u8),
}

/// Functions of two lanes.
pub enum Two {
    Mul,
    Add,
    Sub,
    And,
    Or,
    Xor,
    IntSub,
    /// The first shifted right by the second.
    Shrv,
}

/// What the unit's arithmetic gives.
pub struct Arith {
    pub one: spec_fn(One, Lane) -> Lane,
    pub two: spec_fn(Two, Lane, Lane) -> Lane,
    /// `a * b + c`, and `c - a * b`.
    pub fma: spec_fn(Lane, Lane, Lane) -> Lane,
    pub fnma: spec_fn(Lane, Lane, Lane) -> Lane,
    /// A float as the float16 a store makes of it.
    pub narrow: spec_fn(Lane) -> Lane,
}

/// An instruction of the unit. `masked` is whether it runs under k1.
pub enum Op {
    One { f: One, z: Zmm, b: Src },
    Two { f: Two, z: Zmm, a: Zmm, b: Src, masked: bool },
    /// `z = a * b + z`.
    Fma { z: Zmm, a: Zmm, b: Src },
    /// `z = z - a * b`.
    Fnma { z: Zmm, a: Zmm, b: Src },
    Load { z: Zmm, m: Mem, conv: Conv },
    /// The elements from `m` on, up to the end of its 64-byte line.
    Low { z: Zmm, m: Mem, conv: Conv, ints: bool, masked: bool },
    /// The elements from 64 bytes before `m` on, from the next line on.
    High { z: Zmm, m: Mem, conv: Conv, ints: bool, masked: bool },
    /// Lane `l` is the lane of `b` that lane `l` of `i` names.
    Perm { z: Zmm, i: Zmm, b: Src },
    /// k1 from a general register.
    Mask { g: Gpr },
    Store { m: Mem, z: Zmm, conv: Conv, masked: bool },
}

/// The mask register of an instruction.
pub open spec fn under(masked: bool) -> K {
    if masked {
        K(1)
    } else {
        K(0)
    }
}

/// The register of an operand that has to be one.
pub open spec fn register(b: Src) -> Zmm {
    match b {
        Src::Reg(z) => z,
        _ => Zmm(0),
    }
}

impl Op {
    /// The instruction as it is encoded.
    pub open spec fn insn(self) -> InsnV {
        match self {
            Op::One { f, z, b } => match f {
                One::Floor => InsnV::vrndfxpntps(z, b, Round::Down, K(0)),
                One::Trunc => InsnV::vcvtfxpntps2dq(z, b, Round::Zero, K(0)),
                One::Fixed => InsnV::vcvtfxpntps2dq_adj(z, b, Round::Nearest, ExpAdj::Q8_24, K(0)),
                One::Exp2 => InsnV::vexp223ps(z, register(b), K(0)),
                One::Recip => InsnV::vrcp23ps(z, register(b), K(0)),
                One::Number => InsnV::vcvtfxpntdq2ps(z, b, K(0)),
                One::Shr(n) => InsnV::vpsrld(z, b, n, K(0)),
                One::Shl(n) => InsnV::vpslld(z, b, n, K(0)),
            },
            Op::Two { f, z, a, b, masked } => match f {
                Two::Mul => InsnV::vmulps(z, a, b, under(masked)),
                Two::Add => InsnV::vaddps(z, a, b, under(masked)),
                Two::Sub => InsnV::vsubps(z, a, b, under(masked)),
                Two::And => InsnV::vpandd(z, a, b, under(masked)),
                Two::Or => InsnV::vpord(z, a, b, under(masked)),
                Two::Xor => InsnV::vpxord(z, a, b, under(masked)),
                Two::IntSub => InsnV::vpsubd(z, a, b, under(masked)),
                Two::Shrv => InsnV::vpsrlvd(z, a, b, under(masked)),
            },
            Op::Fma { z, a, b } => InsnV::vfmadd231ps(z, a, b, K(0)),
            Op::Fnma { z, a, b } => InsnV::vfnmadd231ps(z, a, b, K(0)),
            Op::Load { z, m, conv } => if conv is Plain {
                InsnV::vmovaps_load(z, m)
            } else {
                InsnV::vmovaps_load_conv(z, m, conv, K(0))
            },
            Op::Low { z, m, conv, ints, masked } => if ints && conv is Plain {
                InsnV::vloadunpackld(z, m, under(masked))
            } else if ints {
                InsnV::vloadunpackld_conv(z, m, conv, under(masked))
            } else {
                InsnV::vloadunpacklps_conv(z, m, conv, under(masked))
            },
            Op::High { z, m, conv, ints, masked } => if ints && conv is Plain {
                InsnV::vloadunpackhd(z, m, under(masked))
            } else if ints {
                InsnV::vloadunpackhd_conv(z, m, conv, under(masked))
            } else {
                InsnV::vloadunpackhps_conv(z, m, conv, under(masked))
            },
            Op::Perm { z, i, b } => InsnV::vpermd(z, i, b, K(0)),
            Op::Mask { g } => InsnV::kmov_k_r32(K(1), g),
            Op::Store { m, z, conv, masked } => if conv is Plain && !masked {
                InsnV::vmovaps_store(m, z)
            } else {
                InsnV::vmovaps_store_conv(m, z, conv, under(masked))
            },
        }
    }

    /// The register it writes.
    pub open spec fn dest(self) -> Option<Zmm> {
        match self {
            Op::One { z, .. } => Some(z),
            Op::Two { z, .. } => Some(z),
            Op::Fma { z, .. } => Some(z),
            Op::Fnma { z, .. } => Some(z),
            Op::Load { z, .. } => Some(z),
            Op::Low { z, .. } => Some(z),
            Op::High { z, .. } => Some(z),
            Op::Perm { z, .. } => Some(z),
            Op::Mask { .. } => None,
            Op::Store { .. } => None,
        }
    }

    /// Whether it reads a register.
    pub open spec fn reads(self, r: Zmm) -> bool {
        match self {
            Op::One { b, .. } => b == Src::Reg(r),
            Op::Two { z, a, b, masked, .. } => a == r || b == Src::Reg(r) || masked && z == r,
            Op::Fma { z, a, b } => z == r || a == r || b == Src::Reg(r),
            Op::Fnma { z, a, b } => z == r || a == r || b == Src::Reg(r),
            Op::Load { .. } => false,
            Op::Low { z, .. } => z == r,
            Op::High { z, .. } => z == r,
            Op::Perm { i, b, .. } => i == r || b == Src::Reg(r),
            Op::Mask { .. } => false,
            Op::Store { z, .. } => z == r,
        }
    }

    /// Whether it can be run: a memory operand is on the boundary of what it
    /// reads, and its conversion is one the unit is described for.
    pub open spec fn runs(self, g: Map<Gpr, int>) -> bool {
        match self {
            Op::One { f, b, .. } => (f is Exp2 || f is Recip ==> b is Reg) && operand_runs(b, g),
            Op::Two { b, .. } => operand_runs(b, g),
            Op::Fma { b, .. } => operand_runs(b, g),
            Op::Fnma { b, .. } => operand_runs(b, g),
            Op::Load { m, conv, .. } => operand_runs(Src::MemConv(m, conv), g),
            Op::Low { conv, .. } => known(conv),
            Op::High { conv, .. } => known(conv),
            Op::Perm { b, .. } => operand_runs(b, g),
            Op::Mask { .. } => true,
            Op::Store { m, conv, .. } => !(conv is Bcast1) && operand_runs(
                Src::MemConv(m, conv),
                g,
            ),
        }
    }
}

/// The conversions the unit is described for.
pub open spec fn known(conv: Conv) -> bool {
    conv is Plain || conv is Bcast1 || conv is F16 || conv is U8 || conv is S8
}

/// The address of an operand.
pub open spec fn address(m: Mem, g: Map<Gpr, int>) -> int {
    g[m.spec_base()] + m.spec_disp()
}

/// Whether an operand can be read.
pub open spec fn operand_runs(b: Src, g: Map<Gpr, int>) -> bool {
    match b {
        Src::Reg(_) => true,
        Src::Mem(m) => address(m, g) % 64 == 0,
        Src::MemConv(m, conv) => known(conv) && address(m, g) % (if conv is Bcast1 {
            4
        } else {
            16 * Form::of(conv, false).width()
        }) == 0,
    }
}

/// The unit: its registers, k1, and memory, which is read as any form at any
/// address.
pub struct Unit {
    pub z: Map<Zmm, Seq<Lane>>,
    pub k1: spec_fn(int) -> bool,
    pub mem: spec_fn(Form, int) -> Lane,
    pub ar: Arith,
}

/// How many of the lanes below `l` are set in a mask.
pub open spec fn rank(k: spec_fn(int) -> bool, l: int) -> int
    decreases l,
{
    if l <= 0 {
        0
    } else {
        rank(k, l - 1) + if k(l - 1) {
            1int
        } else {
            0
        }
    }
}

/// Bit `l` of `x`.
pub open spec fn bit(x: int, l: int) -> bool {
    x / vstd::arithmetic::power2::pow2(l as nat) as int % 2 == 1
}

impl Unit {
    /// Lane `l` of an operand.
    pub open spec fn lane(self, b: Src, g: Map<Gpr, int>, l: int) -> Lane {
        match b {
            Src::Reg(z) => self.z[z][l],
            Src::Mem(m) => (self.mem)(Form::Word, address(m, g) + 4 * l),
            Src::MemConv(m, conv) => if conv is Bcast1 {
                (self.mem)(Form::Word, address(m, g))
            } else {
                let f = Form::of(conv, false);
                (self.mem)(f, address(m, g) + f.width() * l)
            },
        }
    }

    /// The place that lane `l` takes an unpacked element from.
    pub open spec fn rank(self, masked: bool, l: int) -> int {
        if masked {
            rank(self.k1, l)
        } else {
            l
        }
    }

    /// Whether an instruction writes lane `l`.
    pub open spec fn on(self, masked: bool, l: int) -> bool {
        masked ==> (self.k1)(l)
    }

    /// Lane `l` of what an instruction leaves in its register.
    pub open spec fn value(self, op: Op, g: Map<Gpr, int>, l: int) -> Lane {
        match op {
            Op::One { f, b, .. } => (self.ar.one)(f, self.lane(b, g, l)),
            Op::Two { f, z, a, b, masked } => if self.on(masked, l) {
                (self.ar.two)(f, self.z[a][l], self.lane(b, g, l))
            } else {
                self.z[z][l]
            },
            Op::Fma { z, a, b } => (self.ar.fma)(self.z[a][l], self.lane(b, g, l), self.z[z][l]),
            Op::Fnma { z, a, b } => (self.ar.fnma)(self.z[a][l], self.lane(b, g, l), self.z[z][l]),
            Op::Load { m, conv, .. } => self.lane(Src::MemConv(m, conv), g, l),
            Op::Low { z, m, conv, ints, masked } => {
                let f = Form::of(conv, ints);
                let at = f.width() * self.rank(masked, l);
                if self.on(masked, l) && address(m, g) % 64 + at < 64 {
                    (self.mem)(f, address(m, g) + at)
                } else {
                    self.z[z][l]
                }
            },
            Op::High { z, m, conv, ints, masked } => {
                let f = Form::of(conv, ints);
                let at = f.width() * self.rank(masked, l);
                if self.on(masked, l) && address(m, g) % 64 + at >= 64 {
                    (self.mem)(f, address(m, g) - 64 + at)
                } else {
                    self.z[z][l]
                }
            },
            Op::Perm { i, b, .. } => match self.z[i][l] {
                Lane::Bits(x) => self.lane(b, g, x as int % 16),
                Lane::Num(_) => arbitrary(),
            },
            _ => arbitrary(),
        }
    }

    /// What is in memory after sixteen elements are written at `a`: one that
    /// is written and read in the same form is what was written, one that
    /// nothing written touches is what it was.
    pub open spec fn wrote(
        self,
        a: int,
        f: Form,
        masked: bool,
        x: spec_fn(int) -> Lane,
    ) -> spec_fn(Form, int) -> Lane {
        |h: Form, b: int|
            if b + h.width() <= a || a + 16 * f.width() <= b {
                (self.mem)(h, b)
            } else if h == f && (b - a) % f.width() == 0 {
                if self.on(masked, (b - a) / f.width()) {
                    x((b - a) / f.width())
                } else {
                    (self.mem)(h, b)
                }
            } else {
                arbitrary()
            }
    }

    /// After an instruction.
    pub open spec fn did(self, op: Op, g: Map<Gpr, int>) -> Unit {
        match op {
            Op::Mask { g: r } => Unit { k1: |l: int| bit(g[r], l), ..self },
            Op::Store { m, z, conv, masked } => Unit {
                mem: self.wrote(
                    address(m, g),
                    Form::of(conv, false),
                    masked,
                    |l: int|
                        if conv is F16 {
                            (self.ar.narrow)(self.z[z][l])
                        } else {
                            self.z[z][l]
                        },
                ),
                ..self
            },
            _ => Unit {
                z: self.z.insert(op.dest()->0, Seq::new(16, |l: int| self.value(op, g, l))),
                ..self
            },
        }
    }

    /// After some instructions, in order.
    pub open spec fn all(self, ops: Seq<Op>, g: Map<Gpr, int>) -> Unit
        decreases ops.len(),
    {
        if ops.len() == 0 {
            self
        } else {
            self.all(ops.drop_last(), g).did(ops.last(), g)
        }
    }

    /// One part of the instructions after another.
    pub proof fn lemma_parts(self, a: Seq<Op>, b: Seq<Op>, g: Map<Gpr, int>)
        ensures
            self.all(a + b, g) == self.all(a, g).all(b, g),
        decreases b.len(),
    {
        if b.len() == 0 {
            assert(a + b =~= a);
        } else {
            assert((a + b).drop_last() =~= a + b.drop_last());
            self.lemma_parts(a, b.drop_last(), g);
        }
    }

    /// One more instruction.
    pub broadcast proof fn lemma_push(self, s: Seq<Op>, op: Op, g: Map<Gpr, int>)
        ensures
            #[trigger] self.all(s.push(op), g) == self.all(s, g).did(op, g),
    {
        assert(s.push(op).drop_last() =~= s);
    }

    /// What an instruction leaves in its register comes of the registers it
    /// reads, of memory and of k1.
    pub proof fn lemma_value(self, v: Unit, op: Op, g: Map<Gpr, int>, l: int)
        requires
            self.mem == v.mem,
            self.k1 == v.k1,
            self.ar == v.ar,
            forall|r: Zmm| #[trigger] op.reads(r) ==> self.z[r] == v.z[r],
            op.dest() is Some,
        ensures
            self.value(op, g, l) == v.value(op, g, l),
    {
        match op {
            Op::One { b, .. } => {
                if let Src::Reg(z) = b {
                    assert(op.reads(z));
                }
            },
            Op::Two { z, a, b, .. } => {
                assert(op.reads(a));
                assert(op.reads(z) || self.on(op->Two_masked, l));
                if let Src::Reg(z) = b {
                    assert(op.reads(z));
                }
            },
            Op::Fma { z, a, b } => {
                assert(op.reads(a) && op.reads(z));
                if let Src::Reg(z) = b {
                    assert(op.reads(z));
                }
            },
            Op::Fnma { z, a, b } => {
                assert(op.reads(a) && op.reads(z));
                if let Src::Reg(z) = b {
                    assert(op.reads(z));
                }
            },
            Op::Low { z, .. } => {
                assert(op.reads(z));
            },
            Op::High { z, .. } => {
                assert(op.reads(z));
            },
            Op::Perm { i, b, .. } => {
                assert(op.reads(i));
                if let Src::Reg(z) = b {
                    assert(op.reads(z));
                }
            },
            _ => {},
        }
    }

    /// Instructions none of which reads what one before it writes do what
    /// each of them does at the start.
    pub proof fn lemma_each(self, ops: Seq<Op>, g: Map<Gpr, int>)
        requires
            apart(ops),
        ensures
            ({
                let v = self.all(ops, g);
                &&& v == (Unit { z: v.z, ..self })
                &&& forall|i: int|
                    #![trigger ops[i]]
                    0 <= i < ops.len() ==> v.z[ops[i].dest()->0] == Seq::new(
                        16,
                        |l: int| self.value(ops[i], g, l),
                    )
                &&& forall|r: Zmm|
                    (forall|i: int| 0 <= i < ops.len() ==> (#[trigger] ops[i]).dest() != Some(r))
                        ==> #[trigger] v.z[r] == self.z[r]
            }),
        decreases ops.len(),
    {
        if ops.len() > 0 {
            let s = ops.drop_last();
            let op = ops.last();
            let n = ops.len() - 1;
            assert(ops[n] == op);
            assert forall|i: int| 0 <= i < s.len() implies s[i] == ops[i] by {}
            assert(apart(s)) by {
                assert forall|i: int, j: int| 0 <= i < j < s.len() implies !(#[trigger] s[j]).reads(
                    (#[trigger] s[i]).dest()->0,
                ) && s[i].dest() != s[j].dest() by {
                    assert(s[i] == ops[i] && s[j] == ops[j]);
                }
            }
            self.lemma_each(s, g);
            let u = self.all(s, g);
            assert forall|r: Zmm| #[trigger] op.reads(r) implies self.z[r] == u.z[r] by {
                assert forall|i: int| 0 <= i < s.len() implies (#[trigger] s[i]).dest() != Some(
                    r,
                ) by {
                    assert(s[i] == ops[i]);
                    assert(!ops[n].reads(ops[i].dest()->0));
                }
            }
            assert forall|l: int| u.value(op, g, l) == self.value(op, g, l) by {
                self.lemma_value(u, op, g, l);
            }
            let v = self.all(ops, g);
            assert(v == u.did(op, g));
            assert(Seq::new(16, |l: int| u.value(op, g, l)) =~= Seq::new(
                16,
                |l: int| self.value(op, g, l),
            ));
            assert forall|i: int| 0 <= i < ops.len() implies v.z[(#[trigger] ops[i]).dest()->0]
                == Seq::new(16, |l: int| self.value(ops[i], g, l)) by {
                if i < n {
                    assert(s[i] == ops[i]);
                    assert(ops[i].dest() != ops[n].dest());
                }
            }
            assert forall|r: Zmm|
                (forall|i: int| 0 <= i < ops.len() ==> (#[trigger] ops[i]).dest() != Some(r))
                    implies #[trigger] v.z[r] == self.z[r] by {
                assert(ops[n].dest() != Some(r));
                assert forall|i: int| 0 <= i < s.len() implies (#[trigger] s[i]).dest() != Some(
                    r,
                ) by {
                    assert(s[i] == ops[i]);
                }
            }
        }
    }
}

/// Whether none of the instructions reads or writes what one before it
/// writes.
pub open spec fn apart(ops: Seq<Op>) -> bool {
    &&& forall|i: int| 0 <= i < ops.len() ==> (#[trigger] ops[i]).dest() is Some
    &&& forall|i: int, j: int|
        0 <= i < j < ops.len() ==> !(#[trigger] ops[j]).reads((#[trigger] ops[i]).dest()->0)
            && ops[i].dest() != ops[j].dest()
}

} // verus!
