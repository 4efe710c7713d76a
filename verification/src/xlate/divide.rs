//! Division and square root, which the card lacks: Newton-Raphson from
//! its 23-bit estimates, then one residual step with a fused
//! multiply-add. Doubles are first scaled by a power of two into [1, 4)
//! through their exponent field (so the float seed cannot overflow or
//! underflow), seeded through float, refined twice, and scaled back
//! exactly. Zero, infinity and NaN operands are fixed up from the
//! operands themselves. Scalar forms work lane 0.
use crate::xlate::code;
use crate::xlate::code::{MemOp, Rewrite, Rm, Unsupported};
use crate::xlate::em::Em;
use crate::xlate::ev;
use crate::xlate::ev::{Ev, Outcome};
use crate::xlate::insn::Decoded;
use crate::xlate::mnemonic as mn;
use crate::xlate::prog;
use crate::xlate::prog::{Prog, Step};
use vstd::prelude::*;

verus! {

/// 0.0, 0.5, 1.0, 1.5 and infinity as floats, by their bits.
pub const F32_ZERO: u32 = 0;
pub const F32_HALF: u32 = 0x3f00_0000;
pub const F32_ONE: u32 = 0x3f80_0000;
pub const F32_THREE_HALVES: u32 = 0x3fc0_0000;
pub const F32_INF: u32 = 0x7f80_0000;

/// 0.5, -0.5, 1.0 and infinity as doubles, by their bits.
pub const F64_HALF: u64 = 0x3fe0_0000_0000_0000;
pub const F64_MINUS_HALF: u64 = 0xbfe0_0000_0000_0000;
pub const F64_ONE: u64 = 0x3ff0_0000_0000_0000;
pub const F64_INF: u64 = 0x7ff0_0000_0000_0000;

impl Prog {
    pub open spec fn fma(self, op: u8, d: u8, s1: u8, s2: Rm, w: u8) -> Prog {
        self.mvex(2, 1, w, op, d, s1, s2, 0, 0, None)
    }

    pub open spec fn vmulp(self, d: u8, s1: u8, s2: Rm, w: u8) -> Prog {
        self.mvex(1, w, w, 0x59, d, s1, s2, 0, 0, None)
    }

    /// 1/b to float precision: the estimate and one Newton step.
    pub open spec fn recip_ps(self, r: u8, b: u8, e: u8) -> Prog {
        let p = self.mvex(2, 1, 0, 0xCA, r, 0, Rm::Reg(b), 0, 0, None);
        let one = p.index_of(prog::splat32(F32_ONE));
        p.constant(prog::splat32(F32_ONE)).vmov(e, Rm::Const(one), 0, 0).fma(
            0xBC,
            e,
            b,
            Rm::Reg(r),
            0,
        ).fma(0xB8, r, e, Rm::Reg(r), 0)
    }

    /// The biased exponents of the doubles in `x`, in the odd lanes of `e`.
    pub open spec fn dexp(self, e: u8, x: u8) -> Prog {
        let p = self.shift_imm(2, e, Rm::Reg(x), 20, 0);
        let m = p.index_of(prog::splat32(0x7ff));
        p.constant(prog::splat32(0x7ff)).i0f(0xDB, e, e, Rm::Const(m), 0, 0)
    }

    /// The doubles in `x` with the exponents `expo`, into `out`.
    pub open spec fn dsetexp(self, out: u8, x: u8, expo: u8, t: u8) -> Prog {
        let p = self.mask_imm(0xaaaa);
        let keep = p.index_of(prog::splat32(0x800f_ffff));
        p.constant(prog::splat32(0x800f_ffff)).vmov(out, Rm::Reg(x), 0, 0).i0f(
            0xDB,
            out,
            out,
            Rm::Const(keep),
            self.kscr,
            0,
        ).shift_imm(6, t, Rm::Reg(expo), 20, 0).i0f(0xEB, out, out, Rm::Reg(t), self.kscr, 0)
    }

    /// The powers of two with the exponents `expo`, as doubles.
    pub open spec fn dpow2(self, out: u8, expo: u8) -> Prog {
        self.shift_imm(6, out, Rm::Reg(expo), 20, 0).mask_imm(0x5555).zero(out, self.kscr, 0)
    }

    /// The low 128 bits of `d` above lane 0 from `s1`, zero above them.
    pub open spec fn scalar_rest(self, d: u8, s1: u8, w: u8) -> Prog {
        let p = if d != s1 {
            self.mask_imm(
                if w == 0 {
                    0xe
                } else {
                    0x2
                },
            ).vmov(d, Rm::Reg(s1), self.kscr, w)
        } else {
            self
        };
        p.zero_lanes(d, 0xfff0)
    }

    /// Lane 0 of `d` from `r`, the rest of its low 128 bits from `s1`, zero
    /// above.
    pub open spec fn scalar_result(self, d: u8, r: u8, s1: u8, w: u8) -> Prog {
        self.mask_imm(1).vmov(d, Rm::Reg(r), self.kscr, w).scalar_rest(d, s1, w)
    }

    /// Float quotients a/b into `q`.
    #[verifier::opaque]
    pub open spec fn div_ps(self, a: u8, b: u8, r: u8, e: u8, q: u8) -> Prog {
        let kx = self.kscr;
        let p = self.recip_ps(r, b, e).vmulp(q, a, Rm::Reg(r), 0).vmov(e, Rm::Reg(a), 0, 0).fma(
            0xBC,
            e,
            b,
            Rm::Reg(q),
            0,
        ).fma(0xB8, q, e, Rm::Reg(r), 0).mvex(2, 1, 0, 0xCA, r, 0, Rm::Reg(b), 0, 0, None).vmulp(
            r,
            a,
            Rm::Reg(r),
            0,
        );
        let absm = p.index_of(prog::splat32(0x7fff_ffff));
        let p = p.constant(prog::splat32(0x7fff_ffff)).i0f(0xDB, e, b, Rm::Const(absm), 0, 0);
        let zero = p.index_of(prog::splat32(F32_ZERO));
        let p = p.constant(prog::splat32(F32_ZERO)).compare(kx, e, Rm::Const(zero), 0, 0, 0).vmov(
            q,
            Rm::Reg(r),
            kx,
            0,
        );
        let inf = p.index_of(prog::splat32(F32_INF));
        p.constant(prog::splat32(F32_INF)).compare(kx, e, Rm::Const(inf), 0, 0, 0).vmov(
            q,
            Rm::Reg(r),
            kx,
            0,
        ).i0f(0xDB, e, a, Rm::Const(absm), 0, 0).compare(kx, e, Rm::Const(inf), 0, 0, 0).vmov(
            q,
            Rm::Reg(r),
            kx,
            0,
        )
    }

    /// One Newton step towards 1/r in `q`.
    pub open spec fn recip_step_pd(self, one: usize, r: u8, e: u8, q: u8) -> Prog {
        self.vmov(e, Rm::Const(one), 0, 1).fma(0xBC, e, r, Rm::Reg(q), 1).fma(
            0xB8,
            q,
            e,
            Rm::Reg(q),
            1,
        )
    }

    /// Double quotients a/b into `e`, before the special operands are
    /// looked at.
    #[verifier::opaque]
    pub open spec fn div_pd_finite(self, a: u8, b: u8, r: u8, e: u8, q: u8, ex: u8) -> Prog {
        let p = self.dexp(ex, b);
        let c1023 = p.index_of(prog::splat32(1023));
        let p = p.constant(prog::splat32(1023)).vmov(e, Rm::Const(c1023), 0, 0).dsetexp(r, b, e, q);
        let c2046 = p.index_of(prog::splat32(2046));
        let p = p.constant(prog::splat32(2046)).vmov(e, Rm::Const(c2046), 0, 0).i0f(
            0xFA,
            e,
            e,
            Rm::Reg(ex),
            0,
            0,
        ).dpow2(ex, e).vmulp(ex, ex, Rm::Reg(a), 1).mvex(1, 1, 1, 0x5A, e, 0, Rm::Reg(r), 0, 0, None).mvex(
            2,
            1,
            0,
            0xCA,
            e,
            0,
            Rm::Reg(e),
            0,
            0,
            None,
        ).mvex(1, 0, 0, 0x5A, q, 0, Rm::Reg(e), 0, 0, None);
        let one = p.index_of(prog::splat64(F64_ONE));
        p.constant(prog::splat64(F64_ONE)).recip_step_pd(one, r, e, q).recip_step_pd(
            one,
            r,
            e,
            q,
        ).vmulp(e, ex, Rm::Reg(q), 1).fma(0xBC, ex, r, Rm::Reg(e), 1).fma(
            0xB8,
            e,
            ex,
            Rm::Reg(q),
            1,
        )
    }

    /// The quotients in `e` set right where an operand is zero, infinite
    /// or NaN.
    #[verifier::opaque]
    pub open spec fn div_pd_special(self, a: u8, b: u8, r: u8, e: u8, q: u8, ex: u8) -> Prog {
        let kx = self.kscr;
        let absm = self.index_of(prog::splat64(0x7fff_ffff_ffff_ffff));
        let p = self.constant(prog::splat64(0x7fff_ffff_ffff_ffff));
        let signm = p.index_of(prog::splat64(0x8000_0000_0000_0000));
        let p = p.constant(prog::splat64(0x8000_0000_0000_0000));
        let zero = p.index_of(prog::splat64(0));
        let p = p.constant(prog::splat64(0));
        let inf = p.index_of(prog::splat64(F64_INF));
        let p = p.constant(prog::splat64(F64_INF));
        let nan = p.index_of(prog::splat64(0xfff8_0000_0000_0000));
        p.constant(prog::splat64(0xfff8_0000_0000_0000)).i0f(0xEF, q, a, Rm::Reg(b), 0, 1).i0f(
            0xDB,
            q,
            q,
            Rm::Const(signm),
            0,
            1,
        ).i0f(0xDB, r, b, Rm::Const(absm), 0, 1).compare(kx, r, Rm::Const(zero), 0, 0, 1).i0f(
            0xEB,
            ex,
            q,
            Rm::Const(inf),
            0,
            1,
        ).vmov(e, Rm::Reg(ex), kx, 1).compare(kx, r, Rm::Const(inf), 0, 0, 1).vmov(
            e,
            Rm::Reg(q),
            kx,
            1,
        ).i0f(0xDB, ex, a, Rm::Const(absm), 0, 1).mvex(
            1,
            1,
            1,
            0x58,
            r,
            r,
            Rm::Reg(ex),
            0,
            0,
            None,
        ).compare(kx, r, Rm::Const(zero), 0, 0, 1).vmov(e, Rm::Const(nan), kx, 1).compare(
            kx,
            a,
            Rm::Reg(a),
            3,
            0,
            1,
        ).vmov(e, Rm::Reg(a), kx, 1).compare(kx, b, Rm::Reg(b), 3, 0, 1).vmov(e, Rm::Reg(b), kx, 1)
    }

    /// Float square roots of `a` into `q`.
    #[verifier::opaque]
    pub open spec fn sqrt_ps(self, a: u8, r: u8, e: u8, q: u8) -> Prog {
        let kx = self.kscr;
        let p = self.mvex(2, 1, 0, 0xCB, r, 0, Rm::Reg(a), 0, 0, None);
        let half = p.index_of(prog::splat32(F32_HALF));
        let p = p.constant(prog::splat32(F32_HALF));
        let three_halves = p.index_of(prog::splat32(F32_THREE_HALVES));
        let p = p.constant(prog::splat32(F32_THREE_HALVES)).vmulp(e, a, Rm::Reg(r), 0).vmulp(
            e,
            e,
            Rm::Reg(r),
            0,
        ).vmov(q, Rm::Const(three_halves), 0, 0).fma(0xBC, q, e, Rm::Const(half), 0).vmulp(
            r,
            r,
            Rm::Reg(q),
            0,
        ).vmulp(q, a, Rm::Reg(r), 0).vmov(e, Rm::Reg(a), 0, 0).fma(0xBC, e, q, Rm::Reg(q), 0).vmulp(
            r,
            r,
            Rm::Const(half),
            0,
        ).fma(0xB8, q, e, Rm::Reg(r), 0);
        let zero = p.index_of(prog::splat32(F32_ZERO));
        let p = p.constant(prog::splat32(F32_ZERO)).compare(kx, a, Rm::Const(zero), 0, 0, 0).vmov(
            q,
            Rm::Reg(a),
            kx,
            0,
        );
        let inf = p.index_of(prog::splat32(F32_INF));
        p.constant(prog::splat32(F32_INF)).compare(kx, a, Rm::Const(inf), 0, 0, 0).vmov(
            q,
            Rm::Reg(a),
            kx,
            0,
        )
    }

    /// The doubles in `a` scaled into [1, 4) in `r`, and the scale of their
    /// square roots in `ex`.
    pub open spec fn sqrt_pd_scaled(self, a: u8, r: u8, e: u8, q: u8, ex: u8) -> Prog {
        let p = self.dexp(ex, a);
        let one = p.index_of(prog::splat32(1));
        let p = p.constant(prog::splat32(1)).i0f(0xFE, e, ex, Rm::Const(one), 0, 0).i0f(
            0xDB,
            e,
            e,
            Rm::Const(one),
            0,
            0,
        );
        let c1023 = p.index_of(prog::splat32(1023));
        let p = p.constant(prog::splat32(1023)).i0f(0xFE, e, e, Rm::Const(c1023), 0, 0).dsetexp(
            r,
            a,
            e,
            q,
        );
        let c2046 = p.index_of(prog::splat32(2046));
        p.constant(prog::splat32(2046)).i0f(0xFA, q, ex, Rm::Reg(e), 0, 0).i0f(
            0xFE,
            q,
            q,
            Rm::Const(c2046),
            0,
            0,
        ).shift_imm(4, q, Rm::Reg(q), 1, 0).dpow2(ex, q)
    }

    /// One Newton step towards the reciprocal square root of `r` in `q`.
    pub open spec fn rsqrt_step_pd(self, half: usize, mhalf: usize, r: u8, e: u8, q: u8) -> Prog {
        self.vmulp(e, r, Rm::Reg(q), 1).vmulp(e, e, Rm::Reg(q), 1).vmulp(e, e, Rm::Reg(q), 1).vmulp(
            e,
            e,
            Rm::Const(mhalf),
            1,
        ).fma(0xB8, q, q, Rm::Const(half), 1).mvex(1, 1, 1, 0x58, q, q, Rm::Reg(e), 0, 0, None)
    }

    /// Double square roots of `a` into `e`.
    #[verifier::opaque]
    pub open spec fn sqrt_pd(self, a: u8, r: u8, e: u8, q: u8, ex: u8) -> Prog {
        let kx = self.kscr;
        let p = self.sqrt_pd_scaled(a, r, e, q, ex).mvex(
            1,
            1,
            1,
            0x5A,
            e,
            0,
            Rm::Reg(r),
            0,
            0,
            None,
        ).mvex(2, 1, 0, 0xCB, e, 0, Rm::Reg(e), 0, 0, None).mvex(
            1,
            0,
            0,
            0x5A,
            q,
            0,
            Rm::Reg(e),
            0,
            0,
            None,
        );
        let half = p.index_of(prog::splat64(F64_HALF));
        let p = p.constant(prog::splat64(F64_HALF));
        let mhalf = p.index_of(prog::splat64(F64_MINUS_HALF));
        let p = p.constant(prog::splat64(F64_MINUS_HALF)).rsqrt_step_pd(
            half,
            mhalf,
            r,
            e,
            q,
        ).rsqrt_step_pd(half, mhalf, r, e, q).vmulp(e, r, Rm::Reg(q), 1).vmulp(
            q,
            q,
            Rm::Const(half),
            1,
        ).fma(0xBC, r, e, Rm::Reg(e), 1).fma(0xB8, e, r, Rm::Reg(q), 1).vmulp(e, e, Rm::Reg(ex), 1);
        let zero = p.index_of(prog::splat64(0));
        let p = p.constant(prog::splat64(0));
        let inf = p.index_of(prog::splat64(F64_INF));
        p.constant(prog::splat64(F64_INF)).compare(kx, a, Rm::Const(zero), 0, 0, 1).vmov(
            e,
            Rm::Reg(a),
            kx,
            1,
        ).compare(kx, a, Rm::Const(inf), 0, 0, 1).vmov(e, Rm::Reg(a), kx, 1).compare(
            kx,
            a,
            Rm::Reg(a),
            3,
            0,
            1,
        ).vmov(e, Rm::Reg(a), kx, 1)
    }
}

impl Em {
    /// A fused multiply-add: `op` from the 0F38 map (A8 213, B8 231,
    /// AC fn213, BC fn231, and the pd forms with W1): d = f(d, s1, s2).
    pub fn fma(&mut self, op: u8, d: u8, s1: u8, s2: Rm, w: u8)
        requires
            old(self).wf(),
            s2.within(old(self)@.consts.len()),
        ensures
            final(self).wf(),
            final(self)@ == old(self)@.fma(op, d, s1, s2, w),
    {
        self.mvex(2, 1, w, op, d, s1, s2, 0, 0, None);
    }

    /// vmulps (MVEX.NDS.512.0F.W0 59 /r); vmulpd for W1.
    pub fn vmulp(&mut self, d: u8, s1: u8, s2: Rm, w: u8)
        requires
            old(self).wf(),
            s2.within(old(self)@.consts.len()),
        ensures
            final(self).wf(),
            final(self)@ == old(self)@.vmulp(d, s1, s2, w),
    {
        self.mvex(1, w, w, 0x59, d, s1, s2, 0, 0, None);
    }

    /// 1/b to float precision: vrcp23ps (MVEX.512.66.0F38.W0 CA), one
    /// Newton step (r = r + r*(1 - b*r)).
    fn recip_ps(&mut self, r: u8, b: u8, e: u8)
        requires
            old(self).wf(),
        ensures
            final(self).wf(),
            final(self)@ == old(self)@.recip_ps(r, b, e),
    {
        self.mvex(2, 1, 0, 0xCA, r, 0, Rm::Reg(b), 0, 0, None);
        let one: usize = self.const_dw(F32_ONE);
        self.vmov(e, Rm::Const(one), 0, 0);
        self.fma(0xBC, e, b, Rm::Reg(r), 0);  // e = 1 - b*r
        self.fma(0xB8, r, e, Rm::Reg(r), 0);  // r = e*r + r
    }

    /// A double's biased exponent field (bits 62:52) into the odd (high)
    /// dword lanes of `e` (the even lanes are garbage), from `x`.
    fn dexp(&mut self, e: u8, x: u8)
        requires
            old(self).wf(),
        ensures
            final(self).wf(),
            final(self)@ == old(self)@.dexp(e, x),
    {
        self.shift_imm(2, e, Rm::Reg(x), 20, 0);
        let m: usize = self.const_dw(0x7ff);
        self.i0f(0xDB, e, e, Rm::Const(m), 0, 0);
    }

    /// `x` with its exponent field replaced: `out` = x, high dwords
    /// (odd lanes) = (x & 0x800fffff) | (expo << 20), `expo` a dword vector.
    fn dsetexp(&mut self, out: u8, x: u8, expo: u8, t: u8)
        requires
            old(self).wf(),
        ensures
            final(self).wf(),
            final(self)@ == old(self)@.dsetexp(out, x, expo, t),
    {
        let odd: u8 = self.mask_imm(0xaaaa);
        let keep: usize = self.const_dw(0x800f_ffff);
        self.vmov(out, Rm::Reg(x), 0, 0);
        self.i0f(0xDB, out, out, Rm::Const(keep), odd, 0);
        self.shift_imm(6, t, Rm::Reg(expo), 20, 0);
        self.i0f(0xEB, out, out, Rm::Reg(t), odd, 0);
    }

    /// A power of two as a double vector: `out` = 2^(expo - 1023), `expo`
    /// the biased exponent in the odd lanes (the even lanes become zero).
    fn dpow2(&mut self, out: u8, expo: u8)
        requires
            old(self).wf(),
        ensures
            final(self).wf(),
            final(self)@ == old(self)@.dpow2(out, expo),
    {
        self.shift_imm(6, out, Rm::Reg(expo), 20, 0);
        let even: u8 = self.mask_imm(0x5555);
        self.zero(out, even, 0);
    }

    /// The low 128 bits of `d` above lane 0 from `s1`, zero above them.
    pub fn scalar_rest(&mut self, d: u8, s1: u8, w: u8)
        requires
            old(self).wf(),
        ensures
            final(self).wf(),
            final(self)@ == old(self)@.scalar_rest(d, s1, w),
    {
        if d != s1 {
            let k: u8 = self.mask_imm(
                if w == 0 {
                    0xe
                } else {
                    0x2
                },
            );
            self.vmov(d, Rm::Reg(s1), k, w);
        }
        self.zero_lanes(d, 0xfff0);
    }

    /// Lane 0 of `d` from `r`, the rest of its low 128 bits from `s1`, zero
    /// above.
    pub fn scalar_result(&mut self, d: u8, r: u8, s1: u8, w: u8)
        requires
            old(self).wf(),
        ensures
            final(self).wf(),
            final(self)@ == old(self)@.scalar_result(d, r, s1, w),
    {
        let k: u8 = self.mask_imm(1);
        self.vmov(d, Rm::Reg(r), k, w);
        self.scalar_rest(d, s1, w);
    }

    /// Float quotients a/b into `q`.
    fn div_ps(&mut self, a: u8, b: u8, r: u8, e: u8, q: u8)
        requires
            old(self).wf(),
        ensures
            final(self).wf(),
            final(self)@ == old(self)@.div_ps(a, b, r, e, q),
    {
        reveal(Prog::div_ps);
        let kx: u8 = self.scratch_mask();
        self.recip_ps(r, b, e);
        self.vmulp(q, a, Rm::Reg(r), 0);
        self.vmov(e, Rm::Reg(a), 0, 0);
        self.fma(0xBC, e, b, Rm::Reg(q), 0);  // e = a - b*q
        self.fma(0xB8, q, e, Rm::Reg(r), 0);  // q = e*r + q
        // b zero or infinite (the refinement made NaN of it): a times the raw estimate
        self.mvex(2, 1, 0, 0xCA, r, 0, Rm::Reg(b), 0, 0, None);
        self.vmulp(r, a, Rm::Reg(r), 0);
        let absm: usize = self.const_dw(0x7fff_ffff);
        self.i0f(0xDB, e, b, Rm::Const(absm), 0, 0);
        let zero: usize = self.const_dw(F32_ZERO);
        self.compare(kx, e, Rm::Const(zero), 0, 0, 0);
        self.vmov(q, Rm::Reg(r), kx, 0);
        let inf: usize = self.const_dw(F32_INF);
        self.compare(kx, e, Rm::Const(inf), 0, 0, 0);
        self.vmov(q, Rm::Reg(r), kx, 0);
        // a infinite: the residual is inf - inf; the raw product is right
        self.i0f(0xDB, e, a, Rm::Const(absm), 0, 0);
        self.compare(kx, e, Rm::Const(inf), 0, 0, 0);
        self.vmov(q, Rm::Reg(r), kx, 0);
    }

    fn recip_step_pd(&mut self, one: usize, r: u8, e: u8, q: u8)
        requires
            old(self).wf(),
            one < old(self)@.consts.len(),
        ensures
            final(self).wf(),
            final(self)@ == old(self)@.recip_step_pd(one, r, e, q),
    {
        self.vmov(e, Rm::Const(one), 0, 1);
        self.fma(0xBC, e, r, Rm::Reg(q), 1);  // e = 1 - b'*q
        self.fma(0xB8, q, e, Rm::Reg(q), 1);  // q = e*q + q
    }

    /// Double quotients a/b into `e`, before the special operands are
    /// looked at.
    fn div_pd_finite(&mut self, a: u8, b: u8, r: u8, e: u8, q: u8, ex: u8)
        requires
            old(self).wf(),
        ensures
            final(self).wf(),
            final(self)@ == old(self)@.div_pd_finite(a, b, r, e, q, ex),
    {
        reveal(Prog::div_pd_finite);
        // r = b' (b with exponent 1023, so in [1, 2)); ex = a * 2^(1023 - E), exact
        self.dexp(ex, b);
        let c1023: usize = self.const_dw(1023);
        self.vmov(e, Rm::Const(c1023), 0, 0);
        self.dsetexp(r, b, e, q);
        let c2046: usize = self.const_dw(2046);
        self.vmov(e, Rm::Const(c2046), 0, 0);
        self.i0f(0xFA, e, e, Rm::Reg(ex), 0, 0);
        self.dpow2(ex, e);
        self.vmulp(ex, ex, Rm::Reg(a), 1);
        // q = 1/b': seeded through float, two Newton steps
        self.mvex(1, 1, 1, 0x5A, e, 0, Rm::Reg(r), 0, 0, None);
        self.mvex(2, 1, 0, 0xCA, e, 0, Rm::Reg(e), 0, 0, None);
        self.mvex(1, 0, 0, 0x5A, q, 0, Rm::Reg(e), 0, 0, None);
        let one: usize = self.const_qw(F64_ONE);
        self.recip_step_pd(one, r, e, q);
        self.recip_step_pd(one, r, e, q);
        // e = quotient; ex = residual; e += residual * reciprocal
        self.vmulp(e, ex, Rm::Reg(q), 1);
        self.fma(0xBC, ex, r, Rm::Reg(e), 1);  // ex = aS - b'*e
        self.fma(0xB8, e, ex, Rm::Reg(q), 1);  // e = ex*q + e
    }

    /// The quotients in `e` set right where an operand is zero, infinite
    /// or NaN.
    fn div_pd_special(&mut self, a: u8, b: u8, r: u8, e: u8, q: u8, ex: u8)
        requires
            old(self).wf(),
        ensures
            final(self).wf(),
            final(self)@ == old(self)@.div_pd_special(a, b, r, e, q, ex),
    {
        reveal(Prog::div_pd_special);
        let kx: u8 = self.scratch_mask();
        let absm: usize = self.const_qw(0x7fff_ffff_ffff_ffff);
        let signm: usize = self.const_qw(0x8000_0000_0000_0000);
        let zero: usize = self.const_qw(0);
        let inf: usize = self.const_qw(F64_INF);
        let nan: usize = self.const_qw(0xfff8_0000_0000_0000);
        self.i0f(0xEF, q, a, Rm::Reg(b), 0, 1);
        self.i0f(0xDB, q, q, Rm::Const(signm), 0, 1);  // q = the result's sign
        self.i0f(0xDB, r, b, Rm::Const(absm), 0, 1);  // r = |b|
        self.compare(kx, r, Rm::Const(zero), 0, 0, 1);
        self.i0f(0xEB, ex, q, Rm::Const(inf), 0, 1);
        self.vmov(e, Rm::Reg(ex), kx, 1);  // a/0 = signed infinity
        self.compare(kx, r, Rm::Const(inf), 0, 0, 1);
        self.vmov(e, Rm::Reg(q), kx, 1);  // a/inf = signed zero
        self.i0f(0xDB, ex, a, Rm::Const(absm), 0, 1);  // ex = |a|
        self.mvex(1, 1, 1, 0x58, r, r, Rm::Reg(ex), 0, 0, None);  // |a| + |b|
        self.compare(kx, r, Rm::Const(zero), 0, 0, 1);
        self.vmov(e, Rm::Const(nan), kx, 1);  // 0/0
        self.compare(kx, a, Rm::Reg(a), 3, 0, 1);
        self.vmov(e, Rm::Reg(a), kx, 1);
        self.compare(kx, b, Rm::Reg(b), 3, 0, 1);
        self.vmov(e, Rm::Reg(b), kx, 1);
    }

    /// Float square roots of `a` into `q`: a * rsqrt(a), refined; 0 and
    /// infinity give themselves.
    fn sqrt_ps(&mut self, a: u8, r: u8, e: u8, q: u8)
        requires
            old(self).wf(),
        ensures
            final(self).wf(),
            final(self)@ == old(self)@.sqrt_ps(a, r, e, q),
    {
        reveal(Prog::sqrt_ps);
        let kx: u8 = self.scratch_mask();
        self.mvex(2, 1, 0, 0xCB, r, 0, Rm::Reg(a), 0, 0, None);
        let half: usize = self.const_dw(F32_HALF);
        let three_halves: usize = self.const_dw(F32_THREE_HALVES);
        self.vmulp(e, a, Rm::Reg(r), 0);
        self.vmulp(e, e, Rm::Reg(r), 0);
        self.vmov(q, Rm::Const(three_halves), 0, 0);
        self.fma(0xBC, q, e, Rm::Const(half), 0);
        self.vmulp(r, r, Rm::Reg(q), 0);
        self.vmulp(q, a, Rm::Reg(r), 0);
        self.vmov(e, Rm::Reg(a), 0, 0);
        self.fma(0xBC, e, q, Rm::Reg(q), 0);
        self.vmulp(r, r, Rm::Const(half), 0);
        self.fma(0xB8, q, e, Rm::Reg(r), 0);
        let zero: usize = self.const_dw(F32_ZERO);
        self.compare(kx, a, Rm::Const(zero), 0, 0, 0);
        self.vmov(q, Rm::Reg(a), kx, 0);
        let inf: usize = self.const_dw(F32_INF);
        self.compare(kx, a, Rm::Const(inf), 0, 0, 0);
        self.vmov(q, Rm::Reg(a), kx, 0);
    }

    /// r = a' = a with exponent 1023 + p, p the parity of E - 1023, so a' is
    /// in [1, 4) and the shift back is even; ex = 2^((E - 1023 - p) / 2).
    fn sqrt_pd_scaled(&mut self, a: u8, r: u8, e: u8, q: u8, ex: u8)
        requires
            old(self).wf(),
        ensures
            final(self).wf(),
            final(self)@ == old(self)@.sqrt_pd_scaled(a, r, e, q, ex),
    {
        self.dexp(ex, a);
        let one: usize = self.const_dw(1);
        self.i0f(0xFE, e, ex, Rm::Const(one), 0, 0);
        self.i0f(0xDB, e, e, Rm::Const(one), 0, 0);  // p
        let c1023: usize = self.const_dw(1023);
        self.i0f(0xFE, e, e, Rm::Const(c1023), 0, 0);  // 1023 + p
        self.dsetexp(r, a, e, q);
        let c2046: usize = self.const_dw(2046);
        self.i0f(0xFA, q, ex, Rm::Reg(e), 0, 0);  // E - (1023 + p)
        self.i0f(0xFE, q, q, Rm::Const(c2046), 0, 0);  // + 2046
        self.shift_imm(4, q, Rm::Reg(q), 1, 0);  // / 2: the biased exponent of the scale
        self.dpow2(ex, q);
    }

    /// y = 1.5y - 0.5 a' y^3.
    fn rsqrt_step_pd(&mut self, half: usize, mhalf: usize, r: u8, e: u8, q: u8)
        requires
            old(self).wf(),
            half < old(self)@.consts.len(),
            mhalf < old(self)@.consts.len(),
        ensures
            final(self).wf(),
            final(self)@ == old(self)@.rsqrt_step_pd(half, mhalf, r, e, q),
    {
        self.vmulp(e, r, Rm::Reg(q), 1);
        self.vmulp(e, e, Rm::Reg(q), 1);
        self.vmulp(e, e, Rm::Reg(q), 1);
        self.vmulp(e, e, Rm::Const(mhalf), 1);  // -0.5 a' y^3
        self.fma(0xB8, q, q, Rm::Const(half), 1);  // q = 0.5q + q
        self.mvex(1, 1, 1, 0x58, q, q, Rm::Reg(e), 0, 0, None);  // + e
    }

    /// Double square roots of `a` into `e`.
    fn sqrt_pd(&mut self, a: u8, r: u8, e: u8, q: u8, ex: u8)
        requires
            old(self).wf(),
        ensures
            final(self).wf(),
            final(self)@ == old(self)@.sqrt_pd(a, r, e, q, ex),
    {
        reveal(Prog::sqrt_pd);
        let kx: u8 = self.scratch_mask();
        self.sqrt_pd_scaled(a, r, e, q, ex);
        // q = rsqrt(a') seeded through float, two Newton steps
        self.mvex(1, 1, 1, 0x5A, e, 0, Rm::Reg(r), 0, 0, None);
        self.mvex(2, 1, 0, 0xCB, e, 0, Rm::Reg(e), 0, 0, None);
        self.mvex(1, 0, 0, 0x5A, q, 0, Rm::Reg(e), 0, 0, None);
        let half: usize = self.const_qw(F64_HALF);
        let mhalf: usize = self.const_qw(F64_MINUS_HALF);
        self.rsqrt_step_pd(half, mhalf, r, e, q);
        self.rsqrt_step_pd(half, mhalf, r, e, q);
        // s = a' y; s += (a' - s*s) * 0.5y; then scaled
        self.vmulp(e, r, Rm::Reg(q), 1);
        self.vmulp(q, q, Rm::Const(half), 1);
        self.fma(0xBC, r, e, Rm::Reg(e), 1);  // r = a' - s*s
        self.fma(0xB8, e, r, Rm::Reg(q), 1);  // e = r*q + e
        self.vmulp(e, e, Rm::Reg(ex), 1);
        let zero: usize = self.const_qw(0);
        let inf: usize = self.const_qw(F64_INF);
        self.compare(kx, a, Rm::Const(zero), 0, 0, 1);
        self.vmov(e, Rm::Reg(a), kx, 1);
        self.compare(kx, a, Rm::Const(inf), 0, 0, 1);
        self.vmov(e, Rm::Reg(a), kx, 1);
        self.compare(kx, a, Rm::Reg(a), 3, 0, 1);
        self.vmov(e, Rm::Reg(a), kx, 1);
    }
}

/// Whether `m` is a scalar division or square root.
#[verifier::allow_in_spec]
pub fn is_scalar(m: u16) -> bool
    returns
        m == mn::VDIVSS || m == mn::VDIVSD || m == mn::VSQRTSS || m == mn::VSQRTSD,
{
    m == mn::VDIVSS || m == mn::VDIVSD || m == mn::VSQRTSS || m == mn::VSQRTSD
}

/// Whether `m` is a division.
#[verifier::allow_in_spec]
pub fn is_division(m: u16) -> bool
    returns
        m == mn::VDIVPS || m == mn::VDIVPD || m == mn::VDIVSS || m == mn::VDIVSD,
{
    m == mn::VDIVPS || m == mn::VDIVPD || m == mn::VDIVSS || m == mn::VDIVSD
}

/// The divisor, or the operand of a square root, brought into a register.
pub open spec fn staged(p: Prog, insn: Decoded, ev: Ev) -> Prog {
    if is_scalar(insn.head.mnemonic) {
        match MemOp::spec_of(insn) {
            Some(m) => p.temp().broadcast_load(p.next_temp(), Rm::Mem(m), 0, ev.w),
            None => p,
        }
    } else {
        p.src2(insn, ev)
    }
}

/// What a division or square root becomes.
pub open spec fn divsqrt_outcome(insn: Decoded, ev: Ev, scratch: i32) -> Outcome {
    let m = insn.head.mnemonic;
    if is_scalar(m) && ev.aaa != 0 {
        Outcome::Refused("masked scalar divide or square root: not expressed yet"@)
    } else if ev.b && !insn.has_mem() {
        Outcome::Refused("embedded rounding: not expressed yet"@)
    } else {
        let p = Prog::start(scratch, insn);
        let x = p.src2_reg(insn, ev);
        let p = staged(p, insn, ev);
        let r = p.next_temp();
        let p = p.temp();
        let e = p.next_temp();
        let p = p.temp();
        let q = p.next_temp();
        let p = p.temp().step(Step::K);
        let ex = p.next_temp();
        let p = if is_division(m) && ev.w == 0 {
            p.div_ps(ev.vvvv, x, r, e, q)
        } else if is_division(m) {
            p.temp().div_pd_finite(ev.vvvv, x, r, e, q, ex).div_pd_special(ev.vvvv, x, r, e, q, ex)
        } else if ev.w == 0 {
            p.sqrt_ps(x, r, e, q)
        } else {
            p.temp().sqrt_pd(x, r, e, q, ex)
        };
        let result = if ev.w == 0 {
            q
        } else {
            e
        };
        Outcome::Thunk(
            if is_scalar(m) {
                p.scalar_result(ev.reg, result, ev.vvvv, ev.w)
            } else {
                p.commit(ev.reg, result, ev)
            },
        )
    }
}

/// Division and square root: packed under the write mask and the vector
/// length, or scalar in lane 0.
pub fn divsqrt(insn: &Decoded, ev: &Ev, scratch: i32) -> (res: Result<Rewrite, Unsupported>)
    requires
        insn.operable(),
    ensures
        divsqrt_outcome(*insn, *ev, scratch).is(*insn, res),
{
    let m: u16 = insn.head.mnemonic;
    let w: u8 = ev.w;
    let scalar = is_scalar(m);
    let is_div = is_division(m);
    let mem = MemOp::of(insn);
    if scalar && ev.aaa != 0 {
        return Err(
            code::refuse(insn, "masked scalar divide or square root: not expressed yet"),
        );
    }
    if ev.b && mem.is_none() {
        return Err(code::refuse(insn, "embedded rounding: not expressed yet"));
    }
    let mut em = Em::new(scratch, insn);
    let d: u8 = ev.reg;
    let x: u8 = if scalar {
        match mem {
            Some(mm) => {
                let t: u8 = em.temp();
                em.broadcast_load(t, Rm::Mem(mm), 0, w);
                t
            },
            None => ev.rm,
        }
    } else {
        ev::src2(&mut em, insn, ev)
    };
    let r: u8 = em.temp();
    let e: u8 = em.temp();
    let q: u8 = em.temp();
    em.k();
    // The register holding the result at the end.
    let result: u8 = if is_div && w == 0 {
        em.div_ps(ev.vvvv, x, r, e, q);
        q
    } else if is_div {
        let ex: u8 = em.temp();
        em.div_pd_finite(ev.vvvv, x, r, e, q, ex);
        em.div_pd_special(ev.vvvv, x, r, e, q, ex);
        e
    } else if w == 0 {
        em.sqrt_ps(x, r, e, q);
        q
    } else {
        let ex: u8 = em.temp();
        em.sqrt_pd(x, r, e, q, ex);
        e
    };
    if scalar {
        em.scalar_result(d, result, ev.vvvv, w);
    } else {
        ev::commit(&mut em, d, result, ev);
    }
    Ok(Rewrite::Thunk(em.finish()))
}

} // verus!
