//! What the rewritten mask instructions compute, in the model of
//! [`crate::xlate::meaning`].
use crate::bits;
use crate::xlate::insn;
use crate::xlate::insn::Decoded;
use crate::xlate::laws;
use crate::xlate::mask;
use crate::xlate::mask::MaskOp;
use crate::xlate::meaning;
use crate::xlate::meaning::Vm;
use crate::xlate::mnemonic as mn;
use crate::xlate::prog;
use crate::xlate::prog::Prog;
use vstd::prelude::*;

verus! {

/// Whether the instruction works on masks alone.
pub open spec fn of_masks(m: u16) -> bool {
    match mask::mask_op(m) {
        MaskOp::Three(_) => true,
        MaskOp::Not => true,
        MaskOp::Unpack => true,
        MaskOp::Shift { left: _ } => true,
        _ => false,
    }
}

/// What a mask instruction leaves in its destination, of the masks its
/// sources hold, on sixteen bits.
pub open spec fn on_words(m: u16, imm: u8, a: u16, b: u16) -> u16 {
    match mask::mask_op(m) {
        MaskOp::Three(op) => meaning::mask_result(op, a, b)->0,
        MaskOp::Not => !a,
        MaskOp::Unpack => ((a % 0x100) * 0x100 + b % 0x100) as u16,
        MaskOp::Shift { left } => if imm >= 16 {
            0
        } else if left {
            a << (imm as u16)
        } else {
            a >> (imm as u16)
        },
        _ => 0,
    }
}

/// What a mask instruction leaves in its destination: what it computes on
/// sixteen bits, or, where it works on bytes, the low eight bits of that, zero
/// above them, of the low eight bits of its sources.
pub open spec fn mask_of(m: u16, imm: u8, a: u16, b: u16) -> u16 {
    if mask::is_byte_mask(m) {
        on_words(m, imm, a & 0xff, b & 0xff) & 0xff
    } else {
        on_words(m, imm, a, b)
    }
}

/// The steps between general registers and masks, in numbers.
proof fn lemma_mask_words(a: u16, b: u16, n: u8)
    requires
        n < 16,
    ensures
        a & b == b & a,
        a | b == b | a,
        a ^ b == b ^ a,
        (((a as u32 >> (n as u32)) % 0x1_0000) as u16) == a >> (n as u16),
        ((((a as u32) << (n as u32)) & 0xffff) % 0x1_0000) as u16 == a << (n as u16),
        (((b as u32 & 0xff) | ((a as u32 & 0xff) << 8u32)) % 0x1_0000) as u16 == (a % 0x100) * 0x100
            + b % 0x100,
        (a & b) & 0xff == ((a & 0xff) & (b & 0xff)) & 0xff,
        (!a & b) & 0xff == (!(a & 0xff) & (b & 0xff)) & 0xff,
        (a | b) & 0xff == ((a & 0xff) | (b & 0xff)) & 0xff,
        (a ^ b) & 0xff == ((a & 0xff) ^ (b & 0xff)) & 0xff,
        !(a ^ b) & 0xff == !((a & 0xff) ^ (b & 0xff)) & 0xff,
        !a & 0xff == !(a & 0xff) & 0xff,
        0u16 & 0xff == 0,
        n >= 8 ==> ((a & 0xff) << (n as u16)) & 0xff == 0 && ((a & 0xff) >> (n as u16)) & 0xff == 0,
        ((((a as u32) << (n as u32)) & 0xff) % 0x1_0000) as u16 == ((a & 0xff) << (n as u16)) & 0xff,
        ((((a as u32) & 0xff) >> (n as u32)) % 0x1_0000) as u16 == ((a & 0xff) >> (n as u16)) & 0xff,
{
    assert((a & b) & 0xff == ((a & 0xff) & (b & 0xff)) & 0xff && (!a & b) & 0xff == (!(a & 0xff) & (b
        & 0xff)) & 0xff && (a | b) & 0xff == ((a & 0xff) | (b & 0xff)) & 0xff && (a ^ b) & 0xff == ((
    a & 0xff) ^ (b & 0xff)) & 0xff && !(a ^ b) & 0xff == !((a & 0xff) ^ (b & 0xff)) & 0xff && !a
        & 0xff == !(a & 0xff) & 0xff && 0u16 & 0xff == 0 && (n >= 8 ==> ((a & 0xff) << (n as u16))
        & 0xff == 0 && ((a & 0xff) >> (n as u16)) & 0xff == 0) && ((((a as u32) << (n as u32)) & 0xff)
        % 0x1_0000) as u16 == ((a & 0xff) << (n as u16)) & 0xff && ((((a as u32) & 0xff) >> (n
        as u32)) % 0x1_0000) as u16 == ((a & 0xff) >> (n as u16)) & 0xff) by (bit_vector)
        requires
            n < 16,
    ;
    assert(a & b == b & a && a | b == b | a && a ^ b == b ^ a && ((((a as u32) >> (n as u32))
        % 0x1_0000) as u16) == a >> (n as u16) && ((((a as u32) << (n as u32)) & 0xffff) % 0x1_0000)
        as u16 == a << (n as u16) && (((b as u32 & 0xff) | ((a as u32 & 0xff) << 8u32)) % 0x1_0000)
        as u16 == (a % 0x100) * 0x100 + b % 0x100) by (bit_vector)
        requires
            n < 16,
    ;
}

/// Whether `after` differs from `before` in no mask register but `k` and the
/// scratch one, and not in the vector registers, the general registers that
/// are not restored, or memory.
pub open spec fn only_mask(before: Vm, after: Vm, k: u8, kscr: u8) -> bool {
    &&& after.ok
    &&& after.z == before.z
    &&& after.mem == before.mem
    &&& after.general == before.general
    &&& forall|r: u8| r != k && r != kscr ==> #[trigger] after.k[r] == before.k[r]
}

/// A three-operand mask instruction, in the card's two-operand form, even
/// where the destination is a source.
proof fn lemma_three(p: Prog, consts: Seq<Seq<u8>>, vm: Vm, op: u8, k1: u8, k2: u8, k3: u8)
    requires
        p.meaning(consts, vm).ok,
        op == 0x41 || op == 0x42 || op == 0x45 || op == 0x46 || op == 0x47,
        k1 != p.kscr && k2 != p.kscr && k3 != p.kscr,
    ensures
        ({
            let before = p.meaning(consts, vm);
            let after = p.three(op, k1, k2, k3).meaning(consts, vm);
            &&& only_mask(before, after, k1, p.kscr)
            &&& after.k[k1] == meaning::mask_result(op, before.k[k2], before.k[k3])->0
        }),
{
    broadcast use meaning::lemma_run;

    let before = p.meaning(consts, vm);
    lemma_mask_words(before.k[k2], before.k[k3], 0);
}

/// The bytes between the moves of an unpack.
proof fn lemma_unpack(p: Prog, consts: Seq<Seq<u8>>, vm: Vm, k1: u8, k2: u8, k3: u8)
    requires
        p.meaning(consts, vm).ok,
    ensures
        ({
            let before = p.meaning(consts, vm);
            let after = p.unpack(k1, k2, k3).meaning(consts, vm);
            &&& only_mask(before, after, k1, k1)
            &&& after.k[k1] == (before.k[k2] % 0x100) * 0x100 + before.k[k3] % 0x100
        }),
{
    broadcast use meaning::lemma_run;

    let before = p.meaning(consts, vm);
    lemma_mask_words(before.k[k2], before.k[k3], 0);
    reveal_with_fuel(meaning::ran, 2);
    let b1: Seq<u8> = seq![0x0f, 0xb6, 0xc0];
    let b2: Seq<u8> = seq![0x0f, 0xb6, 0xc9];
    let b3: Seq<u8> = seq![0xc1, 0xe1, 0x08];
    let b4: Seq<u8> = seq![0x09, 0xc8];
    assert(b1.skip(3) =~= seq![] && b2.skip(3) =~= seq![] && b3.skip(3) =~= seq![] && b4.skip(2)
        =~= seq![]);
}

/// The bytes between the moves of a mask shift.
proof fn lemma_shift(
    p: Prog,
    consts: Seq<Seq<u8>>,
    vm: Vm,
    k1: u8,
    k2: u8,
    n: u8,
    left: bool,
    byte: bool,
)
    requires
        p.meaning(consts, vm).ok,
    ensures
        ({
            let before = p.meaning(consts, vm);
            let after = p.shift(k1, k2, n, left, byte).meaning(consts, vm);
            &&& only_mask(before, after, k1, k1)
            &&& after.k[k1] == (if n >= 16 {
                0
            } else if byte && left {
                ((before.k[k2] & 0xff) << (n as u16)) & 0xff
            } else if byte {
                ((before.k[k2] & 0xff) >> (n as u16)) & 0xff
            } else if left {
                before.k[k2] << (n as u16)
            } else {
                before.k[k2] >> (n as u16)
            })
        }),
{
    broadcast use meaning::lemma_run;

    let before = p.meaning(consts, vm);
    if n < 16 {
        lemma_mask_words(before.k[k2], 0, n);
    }
    reveal_with_fuel(meaning::ran, 2);
    let b1: Seq<u8> = seq![0x31, 0xc0];
    let b2: Seq<u8> = seq![0xc1, 0xe0, n];
    let b3: Seq<u8> = seq![0x0f, 0xb7, 0xc0];
    let b4: Seq<u8> = seq![0xc1, 0xe8, n];
    let b5: Seq<u8> = seq![0x0f, 0xb6, 0xc0];
    assert(b5.skip(3) =~= seq![]);
    assert(b1.skip(2) =~= seq![] && b2.skip(3) =~= seq![] && b3.skip(3) =~= seq![] && b4.skip(3)
        =~= seq![]);
}

/// The mask registers an instruction names as operands are among those it
/// names.
proof fn lemma_operand(d: Decoded, n: int, i: int)
    requires
        0 <= i < n <= d.head.op_count,
        d.k(i) is Some,
        d.kind(i) == insn::KIND_REGISTER,
    ensures
        prog::operand_kregs(d, n).contains(d.k(i)->0),
    decreases n,
{
    let before = prog::operand_kregs(d, n - 1);
    if i == n - 1 {
        assert(before.push(d.k(i)->0).last() == d.k(i)->0);
        assert(before.push(d.k(i)->0)[before.len() as int] == d.k(i)->0);
    } else {
        lemma_operand(d, n - 1, i);
        let j = choose|j: int| 0 <= j < before.len() && before[j] == d.k(i)->0;
        let all = prog::operand_kregs(d, n);
        assert(all[j] == d.k(i)->0);
    }
}

/// No mask register it names as an operand is the scratch one.
pub proof fn lemma_not_scratch(scratch: i32, d: Decoded, i: int)
    requires
        0 <= i < d.head.op_count <= 5,
        d.k(i) is Some,
        d.kind(i) == insn::KIND_REGISTER,
    ensures
        d.k(i)->0 != Prog::start(scratch, d).kscr,
{
    laws::law_scratch_mask(scratch, d);
    let n = d.head.op_count as int;
    lemma_operand(d, n, i);
    let ops = prog::operand_kregs(d, n);
    let j = choose|j: int| 0 <= j < ops.len() && ops[j] == d.k(i)->0;
    assert(prog::mask_regs(d)[j] == d.k(i)->0);
}

/// A mask cut to its low eight bits, or left alone.
pub proof fn lemma_cut(p: Prog, consts: Seq<Seq<u8>>, vm: Vm, k: u8, byte: bool)
    requires
        p.meaning(consts, vm).ok,
        k != p.kscr,
    ensures
        ({
            let before = p.meaning(consts, vm);
            let q = p.cut(k, byte);
            let after = q.meaning(consts, vm);
            &&& only_mask(before, after, k, p.kscr)
            &&& q.kscr == p.kscr
            &&& after.k[k] == (if byte {
                before.k[k] & 0xff
            } else {
                before.k[k]
            })
        }),
{
    broadcast use meaning::lemma_run;

    meaning::lemma_mask_imm(p, consts, vm, 0xff);
}

/// The mask instructions leave in their destination what AVX-512 leaves
/// there, of masks of eight or sixteen bits, even where the destination is a
/// source, and in no other mask register but the scratch one. Those on dwords
/// and qwords leave its low sixteen bits.
pub proof fn law_mask_instructions(insn: Decoded, bytes: Seq<u8>, scratch: i32, vm: Vm)
    requires
        insn.mask_operable(bytes),
        of_masks(insn.head.mnemonic),
        forall|i: int| 0 <= i < insn.head.op_count && insn.k(i) is Some ==> #[trigger] insn.kind(i) == insn::KIND_REGISTER,
        insn.head.op_count >= 2,
        mask::mask_op(insn.head.mnemonic) is Three || mask::mask_op(insn.head.mnemonic) is Unpack ==> insn.head.op_count >= 3,
        mask::kops_outcome(insn, bytes, scratch) is Thunk,
        vm.ok,
    ensures
        ({
            let p = mask::kops_outcome(insn, bytes, scratch)->Thunk_0;
            let after = p.meaning(p.consts, vm);
            let k1 = insn.k(0)->0;
            &&& only_mask(vm, after, k1, p.kscr)
            &&& after.k[k1] == mask_of(
                insn.head.mnemonic,
                insn.head.imm8,
                vm.k[insn.k(1)->0],
                vm.k[insn.k(2)->0],
            )
        }),
{
    broadcast use meaning::lemma_run;

    let p = Prog::start(scratch, insn);
    let fin = mask::kops_outcome(insn, bytes, scratch)->Thunk_0;
    let consts = fin.consts;
    assert(p.meaning(consts, vm) == vm);
    let k1 = insn.k(0)->0;
    let k2 = insn.k(1)->0;
    let k3 = insn.k(2)->0;
    let m8 = mask::is_byte_mask(insn.head.mnemonic);
    lemma_mask_words(vm.k[k2], vm.k[k3], 0);
    lemma_not_scratch(scratch, insn, 0);
    lemma_not_scratch(scratch, insn, 1);
    match mask::mask_op(insn.head.mnemonic) {
        MaskOp::Three(op) => {
            lemma_not_scratch(scratch, insn, 2);
            lemma_three(p, consts, vm, op, k1, k2, k3);
            lemma_cut(p.three(op, k1, k2, k3), consts, vm, k1, m8);
        },
        MaskOp::Not => {
            lemma_cut(p.vexk(0x44, k1, k2), consts, vm, k1, m8);
        },
        MaskOp::Unpack => {
            lemma_unpack(p, consts, vm, k1, k2, k3);
        },
        MaskOp::Shift { left } => {
            lemma_shift(p, consts, vm, k1, k2, insn.head.imm8, left, m8);
        },
        _ => {},
    }
}

/// Bits 2i and 2i+1 of the result are bit i of the low byte, within the
/// limit.
proof fn lemma_spread(k: u16, limit: u16, j: u16)
    requires
        j < 16,
    ensures
        ({
            let a0 = k as u32 & 0xff;
            let a1 = (a0 | (a0 << 4u32)) & 0x0f0f;
            let a2 = (a1 | (a1 << 2u32)) & 0x3333;
            let a3 = (a2 | (a2 << 1u32)) & 0x5555;
            let a4 = (a3 | (a3 << 1u32)) & limit as u32;
            meaning::bit((a4 % 0x1_0000) as u16, j as int) == (meaning::bit(k, (j / 2) as int)
                && meaning::bit(limit, j as int))
        }),
{
    let a0 = k as u32 & 0xff;
    let a1 = (a0 | (a0 << 4u32)) & 0x0f0f;
    let a2 = (a1 | (a1 << 2u32)) & 0x3333;
    let a3 = (a2 | (a2 << 1u32)) & 0x5555;
    let a4 = (a3 | (a3 << 1u32)) & limit as u32;
    let r = (a4 % 0x1_0000) as u16;
    let h = j / 2;
    assert((r >> j) & 1 == 1 <==> ((k >> h) & 1 == 1 && (limit >> j) & 1 == 1)) by (bit_vector)
        requires
            j < 16,
            h == j / 2,
            a0 == k as u32 & 0xff,
            a1 == (a0 | (a0 << 4u32)) & 0x0f0f,
            a2 == (a1 | (a1 << 2u32)) & 0x3333,
            a3 == (a2 | (a2 << 1u32)) & 0x5555,
            a4 == (a3 | (a3 << 1u32)) & limit as u32,
            r == (a4 % 0x1_0000) as u16,
    ;
}

/// `and eax, imm32` where it stands among other instructions.
proof fn lemma_and(b: Seq<u8>, at: int, imm: u32, eax: u32, ecx: Option<u32>)
    requires
        0 <= at,
        at + 5 <= b.len(),
        b[at] == 0x25,
        b.subrange(at + 1, at + 5) == bits::le32(imm),
    ensures
        meaning::ran(b.skip(at), (Some(eax), ecx)) == meaning::ran(
            b.skip(at + 5),
            (Some(eax & imm), ecx),
        ),
{
    let w = bits::le32(imm);
    bits::lemma_word32(imm);
    let s = b.subrange(at + 1, at + 5);
    assert(s[0] == w[0] && s[1] == w[1] && s[2] == w[2] && s[3] == w[3]);
    let c = b.skip(at);
    assert(c[1] == w[0] && c[2] == w[1] && c[3] == w[2] && c[4] == w[3]);
    assert(c.skip(5) =~= b.skip(at + 5));
}

/// `mov ecx, eax`, a shift of ecx by 4, 2 or 1, `or eax, ecx`.
proof fn lemma_fold(b: Seq<u8>, at: int, n: u8, eax: u32, ecx: Option<u32>)
    requires
        0 <= at,
        n == 4 || n == 2 || n == 1,
        at + 7 <= b.len(),
        b[at] == 0x89 && b[at + 1] == 0xc1,
        n != 1 ==> b[at + 2] == 0xc1 && b[at + 3] == 0xe1 && b[at + 4] == n && b[at + 5] == 0x09
            && b[at + 6] == 0xc8,
        n == 1 ==> b[at + 2] == 0xd1 && b[at + 3] == 0xe1 && b[at + 4] == 0x09 && b[at + 5] == 0xc8,
    ensures
        ({
            let c = eax << (n as u32);
            meaning::ran(b.skip(at), (Some(eax), ecx)) == meaning::ran(
                b.skip(at + (if n == 1 { 6int } else { 7 })),
                (Some(eax | c), Some(c)),
            )
        }),
{
    let b0 = b.skip(at);
    let b1 = b.skip(at + 2);
    assert(b0.skip(2) =~= b1);
    assert(meaning::ran(b0, (Some(eax), ecx)) == meaning::ran(b1, (Some(eax), Some(eax))));
    let c = eax << (n as u32);
    if n == 1 {
        let b2 = b.skip(at + 4);
        assert(b1.skip(2) =~= b2);
        assert(meaning::ran(b1, (Some(eax), Some(eax))) == meaning::ran(b2, (Some(eax), Some(c))));
        assert(b2.skip(2) =~= b.skip(at + 6));
    } else {
        let b2 = b.skip(at + 5);
        assert(b1.skip(3) =~= b2);
        assert(meaning::ran(b1, (Some(eax), Some(eax))) == meaning::ran(b2, (Some(eax), Some(c))));
        assert(b2.skip(2) =~= b.skip(at + 7));
    }
}

/// A mask of qword lanes becomes the mask of their dword lanes, within the
/// limit: dword `j` is selected where qword `j / 2` is.
pub proof fn law_qword_mask(p: Prog, consts: Seq<Seq<u8>>, vm: Vm, k: u8, limit: u16, j: u16)
    requires
        p.meaning(consts, vm).ok,
        j < 16,
    ensures
        ({
            let before = p.meaning(consts, vm);
            let after = p.qmask_to_dmask(k, limit).meaning(consts, vm);
            &&& only_mask(before, after, p.kscr, p.kscr)
            &&& meaning::bit(after.k[p.kscr], j as int) == (meaning::bit(
                before.k[k],
                (j / 2) as int,
            ) && meaning::bit(limit, j as int))
        }),
{
    broadcast use meaning::lemma_run;

    let before = p.meaning(consts, vm);
    let b = prog::spread_bits(limit);
    let w = bits::le32(limit as u32);
    let a = before.k[k] as u32;
    let c = before.gp.1;
    bits::lemma_word32(limit as u32);
    assert(b.len() == 49);
    lemma_masks();
    let a0 = a & 0xff;
    assert(b.skip(0) =~= b);
    assert(b.skip(0).skip(3) =~= b.skip(3));
    assert(meaning::ran(b, (Some(a), c)) == meaning::ran(b.skip(3), (Some(a0), c)));
    lemma_fold(b, 3, 4, a0, c);
    let c1 = a0 << 4u32;
    assert(b.subrange(11, 15) =~= bits::le32(0x0f0f));
    lemma_and(b, 10, 0x0f0f, a0 | c1, Some(c1));
    let a1 = (a0 | c1) & 0x0f0f;
    lemma_fold(b, 15, 2, a1, Some(c1));
    let c2 = a1 << 2u32;
    assert(b.subrange(23, 27) =~= bits::le32(0x3333));
    lemma_and(b, 22, 0x3333, a1 | c2, Some(c2));
    let a2 = (a1 | c2) & 0x3333;
    lemma_fold(b, 27, 1, a2, Some(c2));
    let c3 = a2 << 1u32;
    assert(b.subrange(34, 38) =~= bits::le32(0x5555));
    lemma_and(b, 33, 0x5555, a2 | c3, Some(c3));
    let a3 = (a2 | c3) & 0x5555;
    lemma_fold(b, 38, 1, a3, Some(c3));
    let c4 = a3 << 1u32;
    assert(b.subrange(45, 49) =~= w);
    lemma_and(b, 44, limit as u32, a3 | c4, Some(c4));
    assert(b.skip(49) =~= seq![]);
    lemma_spread(before.k[k], limit, j);
}

/// The bytes of the masks of the spreading.
proof fn lemma_masks()
    ensures
        bits::le32(0x0f0f) == seq![0x0fu8, 0x0f, 0x00, 0x00],
        bits::le32(0x3333) == seq![0x33u8, 0x33, 0x00, 0x00],
        bits::le32(0x5555) == seq![0x55u8, 0x55, 0x00, 0x00],
{
    assert((0x0f0fu32 & 0xff) as u8 == 0x0f && ((0x0f0fu32 >> 8) & 0xff) as u8 == 0x0f && ((0x0f0fu32
        >> 16) & 0xff) as u8 == 0 && ((0x0f0fu32 >> 24) & 0xff) as u8 == 0 && (0x3333u32 & 0xff) as u8
        == 0x33 && ((0x3333u32 >> 8) & 0xff) as u8 == 0x33 && ((0x3333u32 >> 16) & 0xff) as u8 == 0
        && ((0x3333u32 >> 24) & 0xff) as u8 == 0 && (0x5555u32 & 0xff) as u8 == 0x55 && ((0x5555u32
        >> 8) & 0xff) as u8 == 0x55 && ((0x5555u32 >> 16) & 0xff) as u8 == 0 && ((0x5555u32 >> 24)
        & 0xff) as u8 == 0) by (bit_vector);
    assert(bits::le32(0x0f0f) =~= seq![0x0fu8, 0x0f, 0x00, 0x00]);
    assert(bits::le32(0x3333) =~= seq![0x33u8, 0x33, 0x00, 0x00]);
    assert(bits::le32(0x5555) =~= seq![0x55u8, 0x55, 0x00, 0x00]);
}

} // verus!
