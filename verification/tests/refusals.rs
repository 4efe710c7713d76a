//! What is refused, and the reason given.
use phi_avx512::xlate::code::{Rewrite, Target};
use phi_avx512::xlate::insn::decode;
use phi_avx512::xlate::rewrite::{rewrite_at, rewrite_bytecmp_checked};
use phi_avx512::xlate::translate::translate_at;

const TG: Target = Target { scratch: -0x1000 };

fn rewriting(bytes: &[u8]) -> String {
    rewrite_at(bytes, 0x1000, &TG).expect("whole").expect_err("refused").reason
}

fn translating(bytes: &[u8]) -> String {
    translate_at(bytes, 0).expect("a vector instruction").expect_err("refused").reason
}

#[test]
fn a_rewrite_is_refused_with_its_reason() {
    let cases: [(&[u8], &str); 31] = [
        // vmovdqu8 zmm0{k1}, zmm1
        (
            &[0x62, 0xf1, 0x7f, 0x49, 0x6f, 0xc1],
            "a byte or word mask: the card masks 32-bit lanes only",
        ),
        // vmaxss xmm0{k1}, xmm1, xmm2
        (&[0x62, 0xf1, 0x76, 0x09, 0x5f, 0xc2], "masked scalar min/max: not expressed yet"),
        // vmovss xmm0{k1}{z}, xmm1, xmm2
        (
            &[0x62, 0xf1, 0x76, 0x89, 0x10, 0xc2],
            "masked scalar move with zeroing: not expressed yet",
        ),
        // vaddss xmm0{k1}{z}, xmm1, xmm2
        (
            &[0x62, 0xf1, 0x76, 0x89, 0x58, 0xc2],
            "masked scalar operation with zeroing: not expressed yet",
        ),
        // vaddss xmm0, xmm1, xmm2, {rn-sae}
        (
            &[0x62, 0xf1, 0x76, 0x18, 0x58, 0xc2],
            "scalar operation with embedded rounding: not expressed yet",
        ),
        // vcvtsi2ss xmm0, xmm1, dword ptr [r8]
        (
            &[0x62, 0xd1, 0x76, 0x08, 0x2a, 0x00],
            "a memory operand addressed through r8 to r15: not expressed yet",
        ),
        // vcvtss2si eax, xmm1, {rz-sae}
        (
            &[0x62, 0xf1, 0x7e, 0x78, 0x2d, 0xc1],
            "scalar conversion with embedded rounding: not expressed yet",
        ),
        // vcvtusi2sd xmm0, xmm1, rax
        (
            &[0x62, 0xf1, 0xf7, 0x08, 0x7b, 0xc0],
            "unsigned 64-bit integer to float: not expressed yet",
        ),
        // vrndscaless xmm0{k1}, xmm1, xmm2, 0
        (
            &[0x62, 0xf3, 0x75, 0x09, 0x0a, 0xc2, 0x00],
            "masked scalar round: not expressed yet",
        ),
        // vcvtps2ph ymm1, zmm0, 1
        (
            &[0x62, 0xf3, 0x7d, 0x48, 0x1d, 0xc1, 0x01],
            "vcvtps2ph with a rounding other than nearest: not expressed yet",
        ),
        // vrndscaleps zmm0, zmm1, 0x10
        (
            &[0x62, 0xf3, 0x7d, 0x48, 0x08, 0xc1, 0x10],
            "vrndscale to a fraction of a bit (M above 0): not expressed yet",
        ),
        // vrndscaleps zmm0, zmm1, 4
        (
            &[0x62, 0xf3, 0x7d, 0x48, 0x08, 0xc1, 0x04],
            "vrndscale with the MXCSR rounding mode: not expressed yet",
        ),
        // vdivps zmm0, zmm1, zmm2, {rn-sae}
        (&[0x62, 0xf1, 0x74, 0x18, 0x5e, 0xc2], "embedded rounding: not expressed yet"),
        // vdivss xmm0{k1}, xmm1, xmm2
        (
            &[0x62, 0xf1, 0x76, 0x09, 0x5e, 0xc2],
            "masked scalar divide or square root: not expressed yet",
        ),
        // vaddps ymm0, ymm1, ymm2, as VEX
        (&[0xc5, 0xf4, 0x58, 0xc2], "a VEX instruction the card does not have"),
        // kmovw k1, word ptr [r8]
        (
            &[0xc4, 0xc1, 0x78, 0x90, 0x08],
            "a memory operand addressed through r8 to r15: not expressed yet",
        ),
        // vaddps zmm0, zmm1, zmm2, {rn-sae}
        (
            &[0x62, 0xf1, 0x74, 0x18, 0x58, 0xc2],
            "embedded rounding or SAE: not expressed on the card yet",
        ),
        // vpconflictd zmm0, zmm1
        (&[0x62, 0xf2, 0x7d, 0x48, 0xc4, 0xc1], "not in the card's instruction table"),
        // vpsrldq zmm0, zmm1, 5
        (
            &[0x62, 0xf1, 0x7d, 0x48, 0x73, 0xd9, 0x05],
            "a byte shift within 128-bit blocks that is not a whole number of dwords: not expressed yet",
        ),
        // vmovups [rdx]{k1}, zmm0
        (
            &[0x62, 0xf1, 0x7c, 0x49, 0x11, 0x02],
            "a masked store at any alignment: the card's pair packs the lanes it stores",
        ),
        // vmovaps [rdx]{k1}, ymm0
        (
            &[0x62, 0xf1, 0x7c, 0x29, 0x29, 0x02],
            "a masked store at any alignment: the card's pair packs the lanes it stores",
        ),
        // vextractf32x4 [rdx]{k1}, zmm0, 1
        (
            &[0x62, 0xf3, 0x7d, 0x49, 0x19, 0x02, 0x01],
            "a masked store at any alignment: the card's pair packs the lanes it stores",
        ),
        // vmovddup zmm0{k1}, zmm1
        (
            &[0x62, 0xf1, 0xff, 0x49, 0x12, 0xc1],
            "a mask over other elements than the card's instruction has: not expressed yet",
        ),
        // vcvtps2ph ymm1{k1}, zmm0, 0
        (
            &[0x62, 0xf3, 0x7d, 0x49, 0x1d, 0xc1, 0x00],
            "a masked vcvtps2ph: the mask is one of 16-bit elements, the card masks 32-bit lanes",
        ),
        // kmovb eax, k1
        (&[0xc5, 0xf9, 0x93, 0xc1], "kmovb to a general register: not expressed yet"),
        // kortestb k1, k2
        (&[0xc5, 0xf9, 0x98, 0xca], "kortestb: the card tests sixteen bits"),
        // kmovw [rax], k1
        (&[0xc5, 0xf8, 0x91, 0x08], "a mask stored through rax: not expressed yet"),
        // vzeroupper and vzeroall
        (&[0xc5, 0xf8, 0x77], "a VEX instruction the card does not have"),
        (&[0xc5, 0xfc, 0x77], "a VEX instruction the card does not have"),
        // vpaddd xmm0, xmm1, xmm2, as VEX
        (&[0xc5, 0xf1, 0xfe, 0xc2], "a VEX instruction the card does not have"),
        // vshufpd zmm0, zmm1, zmm2, 1
        (
            &[0x62, 0xf1, 0xf5, 0x48, 0xc6, 0xc2, 0x01],
            "vshufpd with a different selection per block: not expressed yet",
        ),
    ];
    for (bytes, why) in cases {
        assert_eq!(rewriting(bytes), why, "{bytes:02x?}");
    }
    // addps xmm0, xmm2
    assert_eq!(rewriting(&[0x0f, 0x58, 0xc2]), "not an EVEX instruction");
}

#[test]
fn a_translation_is_refused_with_its_reason() {
    let cases: [(&[u8], &str); 15] = [
        // vmovupd zmm0{k1}, [rax]
        (&[0x62, 0xf1, 0xfd, 0x49, 0x10, 0x00], "a masked unaligned move"),
        // vmovups zmm0{k1}, [rax], and the store
        (&[0x62, 0xf1, 0x7c, 0x49, 0x10, 0x00], "a masked unaligned move"),
        (&[0x62, 0xf1, 0x7c, 0x49, 0x11, 0x00], "a masked unaligned move"),
        // vmovups zmm0, [rax+0x7fffffff]
        (
            &[0x62, 0xf1, 0x7c, 0x48, 0x10, 0x80, 0xff, 0xff, 0xff, 0x7f],
            "displacement overflows when offset by 64",
        ),
        // vaddps zmm0, zmm1, dword ptr [rax]{1to16}
        (&[0x62, 0xf1, 0x74, 0x58, 0x58, 0x00], "embedded broadcast"),
        // vaddps zmm0, zmm1, zmm2, {rz-sae}
        (&[0x62, 0xf1, 0x74, 0x78, 0x58, 0xc2], "embedded rounding"),
        // vmovaps zmm0, [rax+rcx*4]
        (&[0x62, 0xf1, 0x7c, 0x48, 0x28, 0x04, 0x88], "indexed addressing"),
        // vmovaps zmm0, [r12]
        (&[0x62, 0xd1, 0x7c, 0x48, 0x28, 0x04, 0x24], "rsp or r12 as a memory base"),
        // vpconflictd zmm0, zmm1
        (&[0x62, 0xf2, 0x7d, 0x48, 0xc4, 0xc1], "not in the translation table"),
        // vmovaps zmm0, zmm1
        (&[0x62, 0xf1, 0x7c, 0x48, 0x28, 0xc1], "register to register moves"),
        // vmovaps zmm0, fs:[rax]
        (&[0x64, 0x62, 0xf1, 0x7c, 0x48, 0x28, 0x00], "segment prefix"),
        // vgatherdps zmm0{k1}, [rax+zmm1*4]
        (&[0x62, 0xf2, 0x7d, 0x49, 0x92, 0x04, 0x88], "the card's gather"),
        // vpternlogd zmm0, zmm1, zmm2, 7
        (&[0x62, 0xf3, 0x75, 0x48, 0x25, 0xc2, 0x07], "vpternlog has no card equivalent"),
        // vmovaps zmm0, [eax]
        (&[0x67, 0x62, 0xf1, 0x7c, 0x48, 0x28, 0x00], "memory base is not a 64-bit register"),
        // vsqrtpd zmm0, zmm1
        (&[0x62, 0xf1, 0xfd, 0x48, 0x51, 0xc1], "no divide or square root"),
    ];
    for (bytes, why) in cases {
        let got = translating(bytes);
        assert!(got.starts_with(why), "{bytes:02x?}: {got}");
    }
}

#[test]
fn a_refusal_names_the_instruction() {
    let u = rewrite_at(&[0x62, 0xf2, 0x7d, 0x48, 0xc4, 0xc1], 0, &TG).unwrap().unwrap_err();
    assert_eq!(u.text, "vpconflictd zmm0,zmm1");
    assert_eq!(u.message(), "vpconflictd zmm0,zmm1: not in the card's instruction table");
}

#[test]
fn what_is_no_instruction_is_refused() {
    assert_eq!(rewriting(&[]), "not an EVEX instruction");
    assert_eq!(rewriting(&[0x62, 0xf1, 0x74]), "not an EVEX instruction");
    // vcmpps k1, zmm1, zmm2 with a predicate there is not
    assert!(rewrite_at(&[0x62, 0xf1, 0x74, 0x48, 0xc2, 0xca, 0x20], 0, &TG).is_none());
}

#[test]
fn a_byte_compare_becomes_a_dword_compare_where_the_card_can_tell() {
    let byte = |b: &[u8]| rewrite_bytecmp_checked(&decode(b, 0), b, &TG).expect("whole");
    // vpcmpeqb k1, zmm1, zmm2: no one compare of dwords tells
    assert!(matches!(byte(&[0x62, 0xf1, 0x75, 0x48, 0x74, 0xca]), Ok(Rewrite::Thunk(_))));
    // vpcmpub k1, zmm1, zmm2, 4 (not equal), and vpcmpd in its place
    match byte(&[0x62, 0xf3, 0x75, 0x48, 0x3e, 0xca, 0x04]).unwrap() {
        Rewrite::InPlace(v) => assert_eq!(v, [0x62, 0xf3, 0x71, 0x08, 0x1f, 0xca, 0x04]),
        other => panic!("{other:?}"),
    }
    // vpcmpw k1, zmm1, zmm2, 4
    match byte(&[0x62, 0xf3, 0xf5, 0x48, 0x3f, 0xca, 0x04]).unwrap() {
        Rewrite::InPlace(v) => assert_eq!(v, [0x62, 0xf3, 0x71, 0x08, 0x1f, 0xca, 0x04]),
        other => panic!("{other:?}"),
    }
    // vpcmpb k1, zmm1, zmm2, 1 (less)
    let u = byte(&[0x62, 0xf3, 0x75, 0x48, 0x3f, 0xca, 0x01]).unwrap_err();
    assert_eq!(u.reason, "a byte or word compare the card cannot express");
    // vpcmpeqb k1{k2}, zmm1, zmm2
    let u = byte(&[0x62, 0xf1, 0x75, 0x4a, 0x74, 0xca]).unwrap_err();
    assert_eq!(u.reason, "a byte or word mask: the card masks 32-bit lanes only");
    // vpaddb zmm1, zmm1, zmm2
    let u = byte(&[0x62, 0xf1, 0x75, 0x48, 0xfc, 0xca]).unwrap_err();
    assert_eq!(u.reason, "a byte or word compare the card cannot express");
}
