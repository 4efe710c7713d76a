//! Whole AVX-512 instructions into the card's, from their bytes.
use phi_avx512::xlate::translate::translate_at;

fn xlate(bytes: &[u8]) -> Vec<Vec<u8>> {
    translate_at(bytes, 0)
        .expect("a vector instruction")
        .expect("should translate")
        .into_iter()
        .map(|i| i.bytes)
        .collect()
}

fn refusal(bytes: &[u8]) -> String {
    translate_at(bytes, 0).expect("a vector instruction").expect_err("should be refused").reason
}

/// For arithmetic that exists on both machines the rewrite touches two
/// places and no others: bit 2 of P1, which EVEX fixes at 1 and MVEX
/// does not use (327364-001 section 3.3 gives MVEX.pp two bits), and
/// the P2 byte, where EVEX packs `z|L'L|b|V'|aaa` and MVEX packs
/// `E|SSS|V'|aaa`.
///
/// EVEX bytes here are what `llvm-mc -mattr=+avx512f` emits.
#[test]
fn vaddps_differs_from_avx512_in_two_places_only() {
    // vaddps zmm0, zmm1, zmm2
    let evex = [0x62, 0xf1, 0x74, 0x48, 0x58, 0xc2];
    let out = xlate(&evex);
    assert_eq!(out.len(), 1);
    assert_eq!(out[0], vec![0x62, 0xf1, 0x70, 0x08, 0x58, 0xc2]);
    let differing: Vec<usize> = (0..evex.len()).filter(|&i| evex[i] != out[0][i]).collect();
    assert_eq!(differing, vec![2, 3], "P1 bit 2 and P2, and nothing else");
}

/// Bytes verified by execution on the card, with results bit-identical to
/// the host's FMA3 hardware.
#[test]
fn vfmadd231ps_bytes_verified_on_the_card() {
    // vfmadd231ps zmm0, zmm1, zmm2
    let out = xlate(&[0x62, 0xf2, 0x75, 0x48, 0xb8, 0xc2]);
    assert_eq!(out, vec![vec![0x62, 0xf2, 0x71, 0x08, 0xb8, 0xc2]]);
}

/// An unaligned load has no single card equivalent and becomes the
/// pair that names both cache lines the access can straddle. The high
/// half addresses 64 bytes above the low one.
///
/// The prefix difference between the halves of a load and the halves
/// of a store is the trap here: loads carry no legacy prefix, stores
/// carry 66, and both use opcodes D0 and D4.
#[test]
fn unaligned_load_becomes_a_pair_addressing_two_cache_lines() {
    // vmovups zmm0, [rdi]
    let out = xlate(&[0x62, 0xf1, 0x7c, 0x48, 0x10, 0x07]);
    assert_eq!(out.len(), 2, "one AVX-512 load, two card instructions");
    assert_eq!(out[0], vec![0x62, 0xf2, 0x78, 0x08, 0xd0, 0x87, 0x00, 0x00, 0x00, 0x00]);
    assert_eq!(out[1], vec![0x62, 0xf2, 0x78, 0x08, 0xd4, 0x87, 0x40, 0x00, 0x00, 0x00]);
}

#[test]
fn unaligned_store_becomes_a_pair_and_carries_the_66_prefix() {
    // vmovups [rdi], zmm0
    let out = xlate(&[0x62, 0xf1, 0x7c, 0x48, 0x11, 0x07]);
    assert_eq!(out.len(), 2);
    assert_eq!(out[0][2] & 3, 1, "stores carry the 66 prefix");
    assert_eq!(out[0][4], 0xd0);
    assert_eq!(out[1][4], 0xd4);
}

/// High registers exercise the encoding extension bits, which are
/// inverted in MVEX.
#[test]
fn high_registers_set_the_inverted_extension_bits() {
    // vaddps zmm31, zmm1, zmm2
    let out = xlate(&[0x62, 0x61, 0x74, 0x48, 0x58, 0xfa]);
    assert_eq!(out.len(), 1);
    assert_eq!(out[0][1] >> 7 & 1, 0, "R is inverted and zmm31 sets it");
    assert_eq!(out[0][1] >> 4 & 1, 0, "R' is inverted and zmm31 sets it");
}

/// Everything the card cannot do is refused by name. Silence here, or
/// a plausible substitute, is the one failure that would make the
/// translator worthless.
#[test]
fn the_documented_holes_are_refused_with_a_reason() {
    // vdivps zmm0, zmm1, zmm2
    assert!(refusal(&[0x62, 0xf1, 0x74, 0x48, 0x5e, 0xc2]).contains("divide"));
    // vmaxps zmm0, zmm1, zmm2: the card's NaN rule is not AVX-512's
    assert!(refusal(&[0x62, 0xf1, 0x74, 0x48, 0x5f, 0xc2]).contains("NaN"));
    // vaddps zmm0 {k1}{z}, zmm1, zmm2: no zeroing masking on the card
    assert!(refusal(&[0x62, 0xf1, 0x74, 0xc9, 0x58, 0xc2]).contains("zeroing"));
}

/// The one path that could have produced a silently wrong answer.
///
/// An AVX-512VL operation is EVEX-encoded, so it is not caught as
/// legacy AVX, and its mnemonic is in the translation table. If the
/// vector length were ignored it would become a 512-bit card
/// instruction writing four times the width the program asked for.
///
/// EVEX bytes from `llvm-mc -mattr=+avx512f,+avx512vl`; a write mask
/// is present because without one the assembler picks the shorter VEX
/// form, which this tool rejects elsewhere.
#[test]
fn narrow_evex_forms_are_refused_not_widened() {
    // vaddps xmm0 {k1}, xmm1, xmm2
    assert!(refusal(&[0x62, 0xf1, 0x74, 0x09, 0x58, 0xc2]).contains("AVX-512VL"));
    // vaddps ymm0 {k1}, ymm1, ymm2
    assert!(refusal(&[0x62, 0xf1, 0x74, 0x29, 0x58, 0xc2]).contains("AVX-512VL"));
}

/// The encoder asserts on these two bases, so the translator has to
/// refuse them before it gets there. A panic is not an acceptable
/// answer for input the tool can name.
#[test]
fn sib_only_bases_are_refused_rather_than_panicking() {
    // vmovaps zmm0, [rsp]
    let out = refusal(&[0x62, 0xf1, 0x7c, 0x48, 0x28, 0x04, 0x24]);
    assert!(out.contains("SIB") || out.contains("rsp"), "got: {out}");
}

/// A write mask is carried through unchanged, because both machines
/// put it in the low three bits of the same prefix byte and both mean
/// merging by default.
#[test]
fn write_masks_survive_translation() {
    // vaddps zmm0 {k1}, zmm1, zmm2
    let out = xlate(&[0x62, 0xf1, 0x74, 0x49, 0x58, 0xc2]);
    assert_eq!(out[0][3] & 7, 1, "k1 stays k1");
}

/// Under a mask an aligned move stays one instruction, of lanes of the size
/// of the elements that the mask selects.
#[test]
fn masked_aligned_moves_keep_their_mask() {
    // vmovaps zmm0{k1}, [rdi]
    assert_eq!(
        xlate(&[0x62, 0xf1, 0x7c, 0x49, 0x28, 0x07]),
        vec![vec![0x62, 0xf1, 0x78, 0x09, 0x28, 0x87, 0, 0, 0, 0]]
    );
    // vmovdqa32 [rdi]{k2}, zmm0
    assert_eq!(
        xlate(&[0x62, 0xf1, 0x7d, 0x4a, 0x7f, 0x07]),
        vec![vec![0x62, 0xf1, 0x78, 0x0a, 0x29, 0x87, 0, 0, 0, 0]]
    );
    // vmovapd zmm0{k1}, [rdi]
    assert_eq!(
        xlate(&[0x62, 0xf1, 0xfd, 0x49, 0x28, 0x07]),
        vec![vec![0x62, 0xf1, 0xf9, 0x09, 0x28, 0x87, 0, 0, 0, 0]]
    );
    // vmovdqa64 [rdi]{k2}, zmm0
    assert_eq!(
        xlate(&[0x62, 0xf1, 0xfd, 0x4a, 0x7f, 0x07]),
        vec![vec![0x62, 0xf1, 0xf9, 0x0a, 0x29, 0x87, 0, 0, 0, 0]]
    );
    assert_eq!(refusal(&[0x62, 0xf1, 0x7c, 0xc9, 0x28, 0x07]).contains("zeroing"), true);
}
