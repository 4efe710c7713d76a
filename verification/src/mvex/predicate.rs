//! Compares into a mask.
use crate::mvex::encode;
use crate::mvex::encode::{Insn, InsnV, Map0, Opcode, Pp};
use crate::mvex::reg::{Src, Zmm, K};
use vstd::prelude::*;

verus! {

/// Predicates of `vcmppd` (ISA reference, table 6.3).
#[derive(Clone, Copy, Debug, PartialEq, Eq, Structural)]
pub enum Cmp {
    Eq,
    Lt,
    Le,
    Unord,
    Neq,
    Nlt,
    Nle,
    Ord,
}

impl Cmp {
    pub open spec fn spec_num(self) -> u8 {
        match self {
            Cmp::Eq => 0,
            Cmp::Lt => 1,
            Cmp::Le => 2,
            Cmp::Unord => 3,
            Cmp::Neq => 4,
            Cmp::Nlt => 5,
            Cmp::Nle => 6,
            Cmp::Ord => 7,
        }
    }

    /// The predicate's immediate.
    #[verifier::when_used_as_spec(spec_num)]
    pub fn num(self) -> (n: u8)
        ensures
            n == self.spec_num(),
    {
        match self {
            Cmp::Eq => 0,
            Cmp::Lt => 1,
            Cmp::Le => 2,
            Cmp::Unord => 3,
            Cmp::Neq => 4,
            Cmp::Nlt => 5,
            Cmp::Nle => 6,
            Cmp::Ord => 7,
        }
    }
}

impl InsnV {
    pub open spec fn vcmppd(dst: K, src1: Zmm, src2: Src, pred: Cmp, k: K) -> InsnV {
        InsnV::into_mask(
            "vcmppd"@,
            (Opcode { map: Map0::M0F, pp: Pp::P66, w: true, op: 0xc2 }),
            dst,
            src1,
            src2,
            pred.spec_num(),
            k,
        )
    }

    pub open spec fn vcmpps(dst: K, src1: Zmm, src2: Src, pred: Cmp, k: K) -> InsnV {
        InsnV::into_mask(
            "vcmpps"@,
            (Opcode { map: Map0::M0F, pp: Pp::Bare, w: false, op: 0xc2 }),
            dst,
            src1,
            src2,
            pred.spec_num(),
            k,
        )
    }
}

/// `vcmppd k2 {k1}, zmm1, zmm2/mt, imm8`: element compare into a mask. A
/// zero bit in the write mask k1 clears the result bit, so `k2 = k1 & cmp`
/// (MVEX.NDS.512.66.0F.W1 C2 /r ib).
pub fn vcmppd(dst: K, src1: Zmm, src2: Src, pred: Cmp, k: K) -> (i: Insn)
    requires
        dst.ok(),
        src1.ok(),
        src2.ok(),
        k.ok(),
    ensures
        i@ == InsnV::vcmppd(dst, src1, src2, pred, k),
{
    encode::into_mask(
        "vcmppd",
        Opcode { map: Map0::M0F, pp: Pp::P66, w: true, op: 0xc2 },
        dst,
        src1,
        src2,
        pred.num(),
        k,
    )
}

/// `vcmpps k2 {k1}, zmm1, zmm2/mt, imm8` (MVEX.NDS.512.0F.W0 C2 /r ib).
/// As with `vcmppd`, a zero bit in `k1` clears the result bit rather than
/// leaving it, so the result is `k1 & cmp`.
pub fn vcmpps(dst: K, src1: Zmm, src2: Src, pred: Cmp, k: K) -> (i: Insn)
    requires
        dst.ok(),
        src1.ok(),
        src2.ok(),
        k.ok(),
    ensures
        i@ == InsnV::vcmpps(dst, src1, src2, pred, k),
{
    encode::into_mask(
        "vcmpps",
        Opcode { map: Map0::M0F, pp: Pp::Bare, w: false, op: 0xc2 },
        dst,
        src1,
        src2,
        pred.num(),
        k,
    )
}

} // verus!
