//! Compares of bytes and words for equality. The card's masks have a bit for
//! every dword, so what is kept of such a compare is whether it holds of any
//! element at all.
use crate::xlate::code::{Rewrite, Rm, Unsupported};
use crate::xlate::em::Em;
use crate::xlate::ev;
use crate::xlate::ev::{Ev, Outcome};
use crate::xlate::insn::Decoded;
use crate::xlate::mnemonic as mn;
use crate::xlate::prog;
use crate::xlate::prog::Prog;
use vstd::prelude::*;

verus! {

/// A compare of bytes or words that the card can tell from one of dwords.
#[derive(Clone, Copy, Debug, PartialEq, Eq, Structural)]
pub enum Bytewise {
    /// Whether elements are equal: bytes, or words.
    Equal { words: bool },
    /// Whether elements differ.
    Differ,
    /// Anything else.
    Other,
}

/// What the instruction `m` compares for, by the predicate of an instruction
/// of the third map.
#[verifier::allow_in_spec]
pub fn bytewise(m: u16, map: u8, imm: u8) -> Bytewise
    returns
        (if m == mn::VPCMPEQB {
            Bytewise::Equal { words: false }
        } else if m == mn::VPCMPEQW {
            Bytewise::Equal { words: true }
        } else if map != 3 || !(m == mn::VPCMPB || m == mn::VPCMPUB || m == mn::VPCMPW || m
            == mn::VPCMPUW) {
            Bytewise::Other
        } else if imm & 7 == 0 {
            Bytewise::Equal { words: m == mn::VPCMPW || m == mn::VPCMPUW }
        } else if imm & 7 == 4 {
            Bytewise::Differ
        } else {
            Bytewise::Other
        }),
{
    if m == mn::VPCMPEQB {
        Bytewise::Equal { words: false }
    } else if m == mn::VPCMPEQW {
        Bytewise::Equal { words: true }
    } else if map != 3 || !(m == mn::VPCMPB || m == mn::VPCMPUB || m == mn::VPCMPW || m
        == mn::VPCMPUW) {
        Bytewise::Other
    } else if imm & 7 == 0 {
        Bytewise::Equal { words: m == mn::VPCMPW || m == mn::VPCMPUW }
    } else if imm & 7 == 4 {
        Bytewise::Differ
    } else {
        Bytewise::Other
    }
}

/// Minus one in every byte or word, carried through the dword.
#[verifier::allow_in_spec]
pub fn less_one(words: bool) -> u32
    returns
        (if words {
            0xfffe_ffffu32
        } else {
            0xfefe_feff
        }),
{
    if words {
        0xfffe_ffff
    } else {
        0xfefe_feff
    }
}

/// The top bit of every byte or word.
#[verifier::allow_in_spec]
pub fn top_bits(words: bool) -> u32
    returns
        (if words {
            0x8000_8000u32
        } else {
            0x8080_8080
        }),
{
    if words {
        0x8000_8000
    } else {
        0x8080_8080
    }
}

/// What a compare for equal bytes or words becomes: of the bits that differ,
/// `x`, the dwords with a zero byte are those where `(x - 0x01010101) & !x` has
/// the top bit of a byte.
pub open spec fn equal_outcome(insn: Decoded, ev: Ev, words: bool, scratch: i32) -> Outcome {
    let p = Prog::start(scratch, insn);
    let s2 = p.src2_reg(insn, ev);
    let p = p.src2(insn, ev);
    let x = p.next_temp();
    let y = p.temp().next_temp();
    let p = p.temp().temp();
    let kd = ev.reg & 7;
    let ones = p.index_of(prog::splat32(less_one(words)));
    let p = p.constant(prog::splat32(less_one(words)));
    let tops = p.index_of(prog::splat32(top_bits(words)));
    let p = p
        .constant(prog::splat32(top_bits(words)))
        .i0f(0xEF, x, ev.vvvv, Rm::Reg(s2), 0, 0)
        .i0f(0xFE, y, x, Rm::Const(ones), 0, 0)
        .i0f(0xDF, y, x, Rm::Reg(y), 0, 0)
        .mvex(2, 1, 0, 0x27, kd, y, Rm::Const(tops), 0, 0, None);
    Outcome::Thunk(
        if ev.ll == 2 {
            p
        } else {
            p.mask_imm(ev::vl_lanes(ev.ll, 0)).vexk(0x41, kd, p.kscr)
        },
    )
}

/// A compare for equal bytes or words, the bit of a dword telling whether it
/// holds of any of its elements.
pub fn equal(insn: &Decoded, ev: &Ev, words: bool, scratch: i32) -> (res: Result<
    Rewrite,
    Unsupported,
>)
    requires
        insn.operable(),
    ensures
        equal_outcome(*insn, *ev, words, scratch).is(*insn, res),
{
    let mut em = Em::new(scratch, insn);
    let s2: u8 = ev::src2(&mut em, insn, ev);
    let x: u8 = em.temp();
    let y: u8 = em.temp();
    let kd: u8 = ev.reg & 7;
    let ones: usize = em.const_dw(less_one(words));
    let tops: usize = em.const_dw(top_bits(words));
    em.i0f(0xEF, x, ev.vvvv, Rm::Reg(s2), 0, 0);
    em.i0f(0xFE, y, x, Rm::Const(ones), 0, 0);
    em.i0f(0xDF, y, x, Rm::Reg(y), 0, 0);
    em.mvex(2, 1, 0, 0x27, kd, y, Rm::Const(tops), 0, 0, None);  // vptestmd kd, y, [top bits]
    if ev.ll != 2 {
        let k: u8 = em.mask_imm(ev::vl_lanes(ev.ll, 0));
        em.kand(kd, k);
    }
    Ok(Rewrite::Thunk(em.finish()))
}

} // verus!
