//! Single instructions rewritten for the card, from their bytes, and the
//! layout of what goes out of line.
use phi_avx512::xlate::code::{Fixup, FixupKind, Rewrite, Target, Thunk, Unsupported, S_GPR};
use phi_avx512::xlate::layout::thunk_bytes;
use phi_avx512::xlate::rewrite::rewrite_at;

const TG: Target = Target { scratch: -0x1000 };

fn rewritten(bytes: &[u8]) -> Result<Rewrite, Unsupported> {
    rewrite_at(bytes, 0x1000, &TG).expect("a whole instruction")
}

fn thunk(bytes: &[u8]) -> Thunk {
    match rewritten(bytes).unwrap() {
        Rewrite::Thunk(t) => t,
        other => panic!("{other:?}"),
    }
}

#[test]
fn indexed_fmadd_with_broadcast_keeps_its_sib_and_gets_the_swizzle() {
    // vfmadd213ps (%r9,%rax,4){1to16},%zmm1,%zmm0 as gcc emitted it
    let b = [0x62, 0xd2, 0x75, 0x58, 0xa8, 0x04, 0x81];
    match rewritten(&b).unwrap() {
        Rewrite::InPlace(v) => {
            assert_eq!(v.len(), b.len());
            assert_eq!(&v[4..], &b[4..], "opcode, ModRM and SIB untouched");
            assert_eq!(v[2], 0x71, "P1 bit 2 cleared");
            assert_eq!(v[3], 0x18, "SSS = 001 for {{1to16}}, V' and aaa kept");
        }
        other => panic!("{other:?}"),
    }
}

#[test]
fn aligned_load_with_sib_is_one_to_one() {
    // vmovaps (%r14,%rdx,4),%zmm1
    let b = [0x62, 0xc1, 0x7c, 0x48, 0x28, 0x0c, 0x96];
    match rewritten(&b).unwrap() {
        Rewrite::InPlace(v) => assert_eq!(v, vec![0x62, 0xc1, 0x78, 0x08, 0x28, 0x0c, 0x96]),
        other => panic!("{other:?}"),
    }
}

#[test]
fn masked_mullo_keeps_its_mask() {
    // vpmulld %zmm3,%zmm1,%zmm0{%k1}
    let b = [0x62, 0xf2, 0x75, 0x49, 0x40, 0xc3];
    match rewritten(&b).unwrap() {
        Rewrite::InPlace(v) => assert_eq!(v, vec![0x62, 0xf2, 0x71, 0x09, 0x40, 0xc3]),
        other => panic!("{other:?}"),
    }
}

#[test]
fn extract_high_half_is_a_permute_and_a_masked_zero() {
    // vextractf64x4 $0x1,%zmm0,%ymm1
    let t = thunk(&[0x62, 0xf3, 0xfd, 0x48, 0x1b, 0xc1, 0x01]);
    let pos = t.seq.windows(7).position(|w| w == [0x62, 0xf3, 0x79, 0x08, 0x07, 0xc8, 0x4e]);
    assert!(pos.is_some(), "vpermf32x4 zmm1, zmm0, 0x4e somewhere in {:02x?}", t.seq);
    assert!(t.seq.len() > 20, "then the masked zero of the upper lanes");
}

#[test]
fn a_ymm_add_runs_under_a_lane_mask_and_clears_the_top() {
    // vaddps %ymm2,%ymm1,%ymm0
    let t = thunk(&[0x62, 0xf1, 0x74, 0x28, 0x58, 0xc2]);
    // mov eax, 0xff (the 8 lanes) then kmov k7, eax
    let pos = t
        .seq
        .windows(9)
        .position(|w| w == [0xb8, 0xff, 0x00, 0x00, 0x00, 0xc5, 0xf8, 0x92, 0xf8])
        .expect("lane mask into k7");
    // the add under k7: MVEX vaddps zmm0{k7}, zmm1, zmm2
    assert_eq!(&t.seq[pos + 9..pos + 15], &[0x62, 0xf1, 0x70, 0x0f, 0x58, 0xc2]);
    // then lanes 8..15 zeroed: mov eax, 0xff00; kmov; vpxord zmm0{k7}, zmm0, zmm0
    let z = t.seq.windows(6).position(|w| w == [0x62, 0xf1, 0x79, 0x0f, 0xef, 0xc0]);
    assert!(z.is_some(), "vpxord under k7 in {:02x?}", t.seq);
    // and rax and k7 restored at the end
    let n = t.seq.len();
    assert_eq!(&t.seq[n - 9..n - 4], &[0x64, 0x48, 0x8b, 0x04, 0x25], "mov rax, [fs:...] last");
}

#[test]
fn a_narrow_insert_places_the_block_under_a_mask() {
    // vinserti64x2 $0x1,%xmm0,%ymm1,%ymm1 (the instruction llama.cpp died on)
    let b = [0x62, 0xf3, 0xf5, 0x28, 0x38, 0xc8, 0x01];
    let t = thunk(&b);
    // block 1 mask 0xf0 into k7, then vpermf32x4 zmm1{k7}, zmm0, 0x00
    assert!(t
        .seq
        .windows(9)
        .any(|w| w == [0xb8, 0xf0, 0x00, 0x00, 0x00, 0xc5, 0xf8, 0x92, 0xf8]));
    assert!(
        t.seq.windows(7).any(|w| w == [0x62, 0xf3, 0x79, 0x0f, 0x07, 0xc8, 0x00]),
        "{:02x?}",
        t.seq
    );
}

#[test]
fn zeroing_full_width_add_zeroes_the_unselected_lanes() {
    // vaddps %zmm2,%zmm1,%zmm0{%k1}{z}
    let t = thunk(&[0x62, 0xf1, 0x74, 0xc9, 0x58, 0xc2]);
    // the add under k1, then knot k7, k1 and vpxord zmm0{k7}
    assert!(t.seq.windows(6).any(|w| w == [0x62, 0xf1, 0x70, 0x09, 0x58, 0xc2]));
    assert!(
        t.seq.windows(4).any(|w| w == [0xc5, 0xf8, 0x44, 0xf9]),
        "knot k7, k1 in {:02x?}",
        t.seq
    );
}

#[test]
fn a_memory_operand_of_arithmetic_is_staged_through_the_unpack_pair() {
    // vaddps (%rax),%zmm1,%zmm0: the card needs 64-byte alignment, the program promises none
    let t = thunk(&[0x62, 0xf1, 0x74, 0x48, 0x58, 0x00]);
    // vloadunpackld zmmT, [rax+0] (MVEX.512.0F38.W0 D0) then hd at +64
    let ld = t.seq.windows(5).position(|w| w[0] == 0x62 && w[4] == 0xd0).expect("unpack low");
    let hd = t.seq.windows(5).position(|w| w[0] == 0x62 && w[4] == 0xd4).expect("unpack high");
    assert!(hd > ld);
    assert_eq!(t.seq[hd + 5] & 0xc7, 0x80, "mod=10 [rax+disp32]");
    assert_eq!(&t.seq[hd + 6..hd + 10], &64i32.to_le_bytes());
}

#[test]
fn vmovd_from_a_general_register_goes_through_the_scratch_slot() {
    // vmovd %eax,%xmm16 (EVEX: the high register forces it)
    let t = thunk(&[0x62, 0xe1, 0x7d, 0x08, 0x6e, 0xc0]);
    // mov [fs:scratch+280], eax  = 64 89 04 25 disp32
    let disp = (TG.scratch + S_GPR).to_le_bytes();
    let pos = t.seq.windows(8).position(|w| w[..4] == [0x64, 0x89, 0x04, 0x25] && w[4..] == disp);
    assert!(pos.is_some(), "{:02x?}", t.seq);
}

#[test]
fn kandw_three_operands_become_a_move_and_the_card_form() {
    // kandw %k3,%k2,%k1: VEX.L1.0F.W0 41 /r
    let b = [0xc5, 0xec, 0x41, 0xcb];
    let t = thunk(&b);
    assert_eq!(
        &t.seq[..8],
        &[0xc5, 0xf8, 0x90, 0xca, 0xc5, 0xf8, 0x41, 0xcb],
        "kmov k1,k2; kand k1,k3"
    );
}

#[test]
fn thunk_layout_patches_constants_and_rip_relative_operands() {
    let mut th = Thunk::default();
    // vmovaps zmm0, [rip+const0]: 62 f1 7c 48 28 05 disp32
    th.seq.extend_from_slice(&[0x62, 0xf1, 0x78, 0x08, 0x28, 0x05, 0, 0, 0, 0]);
    th.fixups.push(Fixup {
        disp_at: 6,
        insn_end: 10,
        what: FixupKind::Const(0),
    });
    th.consts.push([0xaa; 64]);
    th.seq.extend_from_slice(&[0x62, 0xf1, 0x78, 0x08, 0x28, 0x0d, 0, 0, 0, 0]);
    th.fixups.push(Fixup {
        disp_at: 16,
        insn_end: 20,
        what: FixupKind::Rip(0x5000),
    });
    let (t, s) = thunk_bytes(&th, 0x2000, 0x1000, 7, 0x1007);
    assert_eq!(s, vec![0xe9, 0xfb, 0x0f, 0x00, 0x00, 0x90, 0x90]);
    assert_eq!(t[20], 0xe9, "jmp back after the sequence");
    let c0 = t.len() - 64;
    assert_eq!((0x2000 + c0) % 64, 0, "constant on a 64-byte boundary");
    let rel = i32::from_le_bytes(t[6..10].try_into().unwrap()) as i64;
    assert_eq!(0x2000 + 10 + rel, 0x2000 + c0 as i64);
    let rel = i32::from_le_bytes(t[16..20].try_into().unwrap()) as i64;
    assert_eq!(0x2000 + 20 + rel, 0x5000);
}
