//! The encoder, against Intel's macros and against bytes the card ran.
use phi_avx512::mvex::conv::{ExpAdj, Round, vcvtfxpntdq2ps, vcvtfxpntps2dq, vcvtfxpntps2dq_adj, vfmsub213ps, vfmsub231ps, vfnmadd231ps, vloadunpackhps_conv, vloadunpackld_conv, vloadunpacklps_conv, vmovaps_load_conv, vmovaps_load_f16, vmovaps_store_conv, vmovdqa32_load_conv, vpermd, vrndfxpntps};
use phi_avx512::mvex::plain::{kmov_k_k, kmov_k_r32, kmov_r32_k, kortest, vaddpd, vfmadd213pd, vfmadd231pd, vfmadd231ps, vloadunpackhd, vloadunpackld, vmovapd_load, vmovapd_store, vmovaps_load, vmovaps_store, vmovnraps_store, vmovnrngoaps_store, vmulpd, vpaddd, vpandd, vpandnd, vpbroadcastd, vpord, vpslld, vpsllvd, vpsrad, vpsrld, vpsrlvd, vpsubd, vpxord, vsubpd};
use phi_avx512::mvex::predicate::{Cmp, vcmppd};
use phi_avx512::mvex::reg::{Conv, Gpr, Mem, Src, Zmm, K};
use phi_avx512::mvex::transc::{vexp223ps, vrcp23ps};


/// Intel's k1om kernel macro VSTORED_DISP32_EAX(v, disp32):
/// `.byte 0x62, 0xf1 ^ (v & 0x10) ^ ((v & 0x8) << 4), 0x78, 0x08, 0x29,
/// 0x80 + ((v & 0x7) << 3); .long disp32`.
fn intel_vstored(v: u8, disp: i32) -> Vec<u8> {
    let mut b = vec![0x62, 0xf1 ^ (v & 0x10) ^ ((v & 0x8) << 4), 0x78, 0x08, 0x29, 0x80 + ((v & 7) << 3)];
    b.extend_from_slice(&disp.to_le_bytes());
    b
}

fn intel_vloadd(v: u8, disp: i32) -> Vec<u8> {
    let mut b = vec![0x62, 0xf1 ^ (v & 0x10) ^ ((v & 0x8) << 4), 0x78, 0x08, 0x28, 0x80 + ((v & 7) << 3)];
    b.extend_from_slice(&disp.to_le_bytes());
    b
}

#[test]
fn vector_store_matches_intel_macro() {
    for v in 0..32u8 {
        let disp = i32::from(v) * 64;
        assert_eq!(
            vmovaps_store(Mem::new(Gpr::Rax, disp), Zmm(v)).bytes,
            intel_vstored(v, disp),
            "zmm{v}"
        );
    }
}

#[test]
fn vector_load_matches_intel_macro() {
    for v in [0u8, 1, 7, 8, 15, 16, 23, 24, 31] {
        assert_eq!(
            vmovaps_load(Zmm(v), Mem::new(Gpr::Rax, 0x7c0)).bytes,
            intel_vloadd(v, 0x7c0),
            "zmm{v}"
        );
    }
}

/// VKMOV_TO_EBX(k): `.byte 0xc5, 0xf8, 0x93, 0xd8 + k`;
/// VKMOV_FROM_EBX(k): `.byte 0xc5, 0xf8, 0x92, 0xc3 + (k << 3)`.
#[test]
fn mask_moves_match_intel_macros() {
    for k in 0..8u8 {
        assert_eq!(kmov_r32_k(Gpr::Rbx, K(k)).bytes, vec![0xc5, 0xf8, 0x93, 0xd8 + k]);
        assert_eq!(kmov_k_r32(K(k), Gpr::Rbx).bytes, vec![0xc5, 0xf8, 0x92, 0xc3 + (k << 3)]);
    }
}

#[test]
fn float64_forms_set_w_and_66() {
    // vmovapd zmm0, [rdi+0]: P1 = W1, vvvv unused (1111), bit 2 clear, pp = 66.
    let i = vmovapd_load(Zmm(0), Src::Mem(Mem::new(Gpr::Rdi, 0)), K(0));
    assert_eq!(&i.bytes[..6], &[0x62, 0xf1, 0xf9, 0x08, 0x28, 0x87]);
    // vaddpd zmm2 {k1}, zmm0, zmm1: vvvv = ~0 = 1111, aaa = 001, ModRM 11 010 001.
    let i = vaddpd(Zmm(2), Zmm(0), Src::Reg(Zmm(1)), K(1));
    assert_eq!(i.bytes, vec![0x62, 0xf1, 0xf9, 0x09, 0x58, 0xd1]);
    // vmulpd zmm11 {k1}, zmm2, zmm7: reg 11 -> R clear; vvvv = ~2 = 1101.
    let i = vmulpd(Zmm(11), Zmm(2), Src::Reg(Zmm(7)), K(1));
    assert_eq!(i.bytes, vec![0x62, 0x71, 0xe9, 0x09, 0x59, 0xdf]);
}

#[test]
fn high_registers_use_extension_bits() {
    // zmm31 as destination: R and R' clear; zmm16 as vvvv: V' clear; zmm24 in rm: B and X clear.
    let i = vaddpd(Zmm(31), Zmm(16), Src::Reg(Zmm(24)), K(0));
    assert_eq!(i.bytes, vec![0x62, 0x01, 0xf9, 0x00, 0x58, 0xf8]);
}

#[test]
fn compare_carries_predicate() {
    let i = vcmppd(K(1), Zmm(10), Src::Reg(Zmm(8)), Cmp::Lt, K(1));
    assert_eq!(i.bytes, vec![0x62, 0xd1, 0xa9, 0x09, 0xc2, 0xc8, 0x01]); // zmm8 in r/m: B clear
    assert_eq!(kortest(K(1), K(1)).bytes, vec![0xc5, 0xf8, 0x98, 0xc9]);
}

#[test]
fn gas_line_format() {
    let i = kmov_k_r32(K(1), Gpr::Rax);
    assert_eq!(i.gas(), "\t.byte 0xc5, 0xf8, 0x92, 0xc8\t# kmov k1, eax");
}

/// Bytes that ran on the card, every one checked against a scalar model
/// there: these pin the encoder to hardware behaviour.
#[test]
fn probe_bytes_verified_on_the_card() {
    assert_eq!(
        vfmadd213pd(Zmm(4), Zmm(1), Src::Reg(Zmm(0)), K(0)).bytes,
        [0x62, 0xf2, 0xf1, 0x08, 0xa8, 0xe0]
    );
    assert_eq!(
        vsubpd(Zmm(5), Zmm(0), Src::Reg(Zmm(1)), K(0)).bytes,
        [0x62, 0xf1, 0xf9, 0x08, 0x5c, 0xe9]
    );
    assert_eq!(
        vmovapd_load(Zmm(31), Src::Reg(Zmm(2)), K(0)).bytes,
        [0x62, 0x61, 0xf9, 0x08, 0x28, 0xfa]
    );
    assert_eq!(
        vmovapd_store(Mem::new(Gpr::Rsi, 256), Zmm(31), K(0)).bytes,
        [0x62, 0x61, 0xf9, 0x08, 0x29, 0xbe, 0x00, 0x01, 0x00, 0x00]
    );
    assert_eq!(
        vaddpd(Zmm(6), Zmm(0), Src::Reg(Zmm(0)), K(3)).bytes,
        [0x62, 0xf1, 0xf9, 0x0b, 0x58, 0xf0]
    );
    assert_eq!(
        vcmppd(K(2), Zmm(0), Src::Reg(Zmm(1)), Cmp::Lt, K(0)).bytes,
        [0x62, 0xf1, 0xf9, 0x08, 0xc2, 0xd1, 0x01]
    );
    assert_eq!(kmov_k_r32(K(3), Gpr::Rax).bytes, [0xc5, 0xf8, 0x92, 0xd8]);
    assert_eq!(kmov_r32_k(Gpr::Rax, K(2)).bytes, [0xc5, 0xf8, 0x93, 0xc2]);
}

/// Bytes that ran on the card, every lane compared against a scalar model
/// there. The integer encodings have no Intel macro to reproduce, so this
/// is the only reference they have, and it is hardware.
#[test]
fn integer_bytes_verified_on_the_card() {
    // NDS three-operand forms: W0 is the only difference from the pd
    // set above, since every integer vector instruction here is 32-bit
    // or 64-bit lanes.
    assert_eq!(
        vpaddd(Zmm(2), Zmm(0), Src::Reg(Zmm(1)), K(0)).bytes,
        [0x62, 0xf1, 0x79, 0x08, 0xfe, 0xd1]
    );
    assert_eq!(
        vpsubd(Zmm(2), Zmm(0), Src::Reg(Zmm(1)), K(0)).bytes,
        [0x62, 0xf1, 0x79, 0x08, 0xfa, 0xd1]
    );
    assert_eq!(
        vpandd(Zmm(2), Zmm(0), Src::Reg(Zmm(1)), K(0)).bytes,
        [0x62, 0xf1, 0x79, 0x08, 0xdb, 0xd1]
    );
    assert_eq!(
        vpandnd(Zmm(2), Zmm(0), Src::Reg(Zmm(1)), K(0)).bytes,
        [0x62, 0xf1, 0x79, 0x08, 0xdf, 0xd1]
    );
    assert_eq!(
        vpord(Zmm(2), Zmm(0), Src::Reg(Zmm(1)), K(0)).bytes,
        [0x62, 0xf1, 0x79, 0x08, 0xeb, 0xd1]
    );
    assert_eq!(
        vpxord(Zmm(2), Zmm(0), Src::Reg(Zmm(1)), K(0)).bytes,
        [0x62, 0xf1, 0x79, 0x08, 0xef, 0xd1]
    );
    assert_eq!(
        vpsllvd(Zmm(2), Zmm(0), Src::Reg(Zmm(1)), K(0)).bytes,
        [0x62, 0xf2, 0x79, 0x08, 0x47, 0xd1]
    );
    assert_eq!(
        vpsrlvd(Zmm(2), Zmm(0), Src::Mem(Mem::new(Gpr::Rdi, 64)), K(0)).bytes,
        [0x62, 0xf2, 0x79, 0x08, 0x45, 0x97, 0x40, 0x00, 0x00, 0x00]
    );
    // Merge masking: a clear mask bit leaves the destination lane alone.
    assert_eq!(
        vpaddd(Zmm(2), Zmm(0), Src::Reg(Zmm(1)), K(1)).bytes,
        [0x62, 0xf1, 0x79, 0x09, 0xfe, 0xd1]
    );

    // NDD shifts: the destination is in vvvv, the source in r/m, and
    // ModRM.reg is the opcode extension, so /6, /2 and /4 land in the
    // ModRM byte as 0xf0, 0xd0 and 0xe0 with zmm0 as the source.
    assert_eq!(
        vpslld(Zmm(2), Src::Reg(Zmm(0)), 1, K(0)).bytes,
        [0x62, 0xf1, 0x69, 0x08, 0x72, 0xf0, 0x01]
    );
    assert_eq!(
        vpslld(Zmm(2), Src::Reg(Zmm(0)), 11, K(0)).bytes,
        [0x62, 0xf1, 0x69, 0x08, 0x72, 0xf0, 0x0b]
    );
    assert_eq!(
        vpsrld(Zmm(2), Src::Reg(Zmm(0)), 11, K(0)).bytes,
        [0x62, 0xf1, 0x69, 0x08, 0x72, 0xd0, 0x0b]
    );
    assert_eq!(
        vpsrad(Zmm(2), Src::Reg(Zmm(0)), 11, K(0)).bytes,
        [0x62, 0xf1, 0x69, 0x08, 0x72, 0xe0, 0x0b]
    );
    assert_eq!(
        vpslld(Zmm(2), Src::Mem(Mem::new(Gpr::Rdi, 0)), 11, K(0)).bytes,
        [0x62, 0xf1, 0x69, 0x08, 0x72, 0xb7, 0x00, 0x00, 0x00, 0x00, 0x0b]
    );
    // Destination above zmm15 clears V' (P2 bit 3) while aaa stays.
    assert_eq!(
        vpslld(Zmm(17), Src::Reg(Zmm(1)), 3, K(2)).bytes,
        [0x62, 0xf1, 0x71, 0x02, 0x72, 0xf1, 0x03]
    );

    // The unaligned load pair and the broadcast. The pair carries no
    // legacy prefix, so P1 keeps pp = 00 and reads 0x78, where the
    // 66-prefixed integer instructions above read 0x79; a 66 prefix
    // here is #UD, not a different instruction.
    assert_eq!(
        vloadunpackld(Zmm(3), Mem::new(Gpr::Rdi, 0), K(0)).bytes,
        [0x62, 0xf2, 0x78, 0x08, 0xd0, 0x9f, 0x00, 0x00, 0x00, 0x00]
    );
    assert_eq!(
        vloadunpackhd(Zmm(3), Mem::new(Gpr::Rdi, 64), K(0)).bytes,
        [0x62, 0xf2, 0x78, 0x08, 0xd4, 0x9f, 0x40, 0x00, 0x00, 0x00]
    );
    assert_eq!(
        vpbroadcastd(Zmm(3), Mem::new(Gpr::Rdi, 68), K(0)).bytes,
        [0x62, 0xf2, 0x79, 0x08, 0x58, 0x9f, 0x44, 0x00, 0x00, 0x00]
    );
}

/// The B bit extends a memory base; rbp with mod = 10 is a plain base,
/// since only mod = 00 with r/m = 101 is RIP-relative.
#[test]
fn memory_bases() {
    let i = vmovapd_load(Zmm(0), Src::Mem(Mem::new(Gpr::R9, 0x40)), K(0));
    assert_eq!(i.bytes, [0x62, 0xd1, 0xf9, 0x08, 0x28, 0x81, 0x40, 0, 0, 0]);
    assert_eq!(i.text, "vmovapd zmm0, [r9+64]");
    let i = vmovaps_store(Mem::new(Gpr::Rbp, -64), Zmm(9));
    assert_eq!(i.bytes, [0x62, 0x71, 0x78, 0x08, 0x29, 0x8d, 0xc0, 0xff, 0xff, 0xff]);
    assert_eq!(i.text, "vmovaps [rbp-64], zmm9");
}

/// `kmov k1, k2` (VEX.128.0F.W0 90 /r) puts k1 in ModRM.reg and k2 in
/// r/m, as the r32 forms do; `vfmadd231pd` differs from the 213 form in
/// the opcode only.
#[test]
fn remaining_forms_and_c_string() {
    assert_eq!(kmov_k_k(K(1), K(2)).bytes, [0xc5, 0xf8, 0x90, 0xca]);
    assert_eq!(kmov_k_k(K(1), K(2)).text, "kmov k1, k2");
    assert_eq!(
        vfmadd231pd(Zmm(1), Zmm(2), Src::Reg(Zmm(3)), K(1)).bytes,
        [0x62, 0xf2, 0xe9, 0x09, 0xb8, 0xcb]
    );
    assert_eq!(
        kortest(K(1), K(1)).c_string(),
        "\".byte 0xc5,0xf8,0x98,0xc9\\n\\t\" /* kortest k1, k1 */"
    );
}

/// The two no-read stores, as the card ran them. The two differ only in
/// the EH bit, which is bit 7 of P2.
#[test]
fn no_read_store_bytes_verified_on_the_card() {
    assert_eq!(
        vmovnraps_store(Mem::new(Gpr::Rdi, 0), Zmm(0)).bytes,
        [0x62, 0xf1, 0x7b, 0x08, 0x29, 0x87, 0, 0, 0, 0]
    );
    assert_eq!(
        vmovnrngoaps_store(Mem::new(Gpr::Rdi, 0), Zmm(0)).bytes,
        [0x62, 0xf1, 0x7b, 0x88, 0x29, 0x87, 0, 0, 0, 0]
    );
    // Same instruction as vmovaps apart from the F2 prefix in P1, so a
    // mistake in the prefix table would show up here as the ordinary
    // store rather than as a decode fault on the card.
    assert_ne!(
        vmovnraps_store(Mem::new(Gpr::Rdi, 0), Zmm(0)).bytes,
        vmovaps_store(Mem::new(Gpr::Rdi, 0), Zmm(0)).bytes
    );
}

#[test]
fn f16_conversion_matches_the_older_form() {
    let a = vmovaps_load_conv(Zmm(4), Mem::new(Gpr::Rdi, 32), Conv::F16, K(0));
    let b = vmovaps_load_f16(Zmm(4), Mem::new(Gpr::Rdi, 32));
    assert_eq!(a.bytes, b.bytes);
}

#[test]
fn conversion_lands_in_sss() {
    // vmovaps zmm4, [rdi+0] {uint8}: P2 = SSS 100, V' 1, aaa 000
    let i = vmovaps_load_conv(Zmm(4), Mem::new(Gpr::Rdi, 0), Conv::U8, K(0));
    assert_eq!(&i.bytes[..6], &[0x62, 0xf1, 0x78, 0x48, 0x28, 0xa7]);
    // sint8 into an int32 move
    let i = vmovdqa32_load_conv(Zmm(0), Mem::new(Gpr::Rsi, 0), Conv::S8, K(0));
    assert_eq!(&i.bytes[..6], &[0x62, 0xf1, 0x79, 0x58, 0x6f, 0x86]);
}

#[test]
fn broadcast_source_matches_the_rewriter() {
    // vfmadd231ps zmm0, zmm1, [rcx+0]{1to16}: the rewriter's test has P2 = 0x18 for {1to16}
    let i = vfmadd231ps(Zmm(0), Zmm(1), Src::MemConv(Mem::new(Gpr::Rcx, 0), Conv::Bcast1), K(0));
    assert_eq!(&i.bytes[..6], &[0x62, 0xf2, 0x71, 0x18, 0xb8, 0x81]);
    assert_eq!(i.text, "vfmadd231ps zmm0, zmm1, [rcx+0]{1to16}");
}

#[test]
fn conversions_and_rounding() {
    // vcvtfxpntdq2ps zmm2, zmm3, 0: map 0F3A (mm = 11), no prefix
    let i = vcvtfxpntdq2ps(Zmm(2), Src::Reg(Zmm(3)), K(0));
    assert_eq!(i.bytes, vec![0x62, 0xf3, 0x78, 0x08, 0xcb, 0xd3, 0x00]);
    // vrndfxpntps zmm5, zmm6, 1 (round down): 66 prefix
    let i = vrndfxpntps(Zmm(5), Src::Reg(Zmm(6)), Round::Down, K(0));
    assert_eq!(i.bytes, vec![0x62, 0xf3, 0x79, 0x08, 0x52, 0xee, 0x01]);
}

#[test]
fn permute_and_float_to_int() {
    let i = vpermd(Zmm(1), Zmm(2), Src::Reg(Zmm(3)), K(0));
    assert_eq!(i.bytes, vec![0x62, 0xf2, 0x69, 0x08, 0x36, 0xcb]);
    let i = vcvtfxpntps2dq(Zmm(2), Src::Reg(Zmm(3)), Round::Zero, K(0));
    assert_eq!(i.bytes, vec![0x62, 0xf3, 0x79, 0x08, 0xcb, 0xd3, 0x03]);
}

#[test]
fn a_converting_store_is_the_plain_store_plus_sss() {
    let plain = vmovaps_store(Mem::new(Gpr::Rdx, 32), Zmm(5));
    let none = vmovaps_store_conv(Mem::new(Gpr::Rdx, 32), Zmm(5), Conv::Plain, K(0));
    assert_eq!(plain.bytes, none.bytes);
    // {float16} is SSS 011 in P2, a mask its aaa, nothing else moves
    let half = vmovaps_store_conv(Mem::new(Gpr::Rdx, 32), Zmm(5), Conv::F16, K(1));
    assert_eq!(half.bytes[3], plain.bytes[3] | 0x30 | 1);
    assert_eq!(&half.bytes[4..], &plain.bytes[4..]);
    assert_eq!(half.text, "vmovaps [rdx+32] {k1}{float16}, zmm5");
}

#[test]
fn exponent_adjustment_lands_in_the_high_nibble() {
    // 8.24 fixed point is I6..I4 = 101, round to nearest I1..I0 = 00: 0x50
    let i = vcvtfxpntps2dq_adj(Zmm(2), Src::Reg(Zmm(3)), Round::Nearest, ExpAdj::Q8_24, K(0));
    assert_eq!(i.bytes, vec![0x62, 0xf3, 0x79, 0x08, 0xcb, 0xd3, 0x50]);
    // no adjustment is the plain form, byte for byte
    let plain = vcvtfxpntps2dq(Zmm(2), Src::Reg(Zmm(3)), Round::Zero, K(0));
    let adj = vcvtfxpntps2dq_adj(Zmm(2), Src::Reg(Zmm(3)), Round::Zero, ExpAdj::Plain, K(0));
    assert_eq!(plain.bytes, adj.bytes);
}

#[test]
fn unpack_forms() {
    // int32 form D0, float32 form D1, both unprefixed; the store twin carries 66
    assert_eq!(
        &vloadunpackld_conv(Zmm(8), Mem::new(Gpr::Rdi, 3), Conv::U8, K(0)).bytes[..6],
        &[0x62, 0x72, 0x78, 0x48, 0xd0, 0x87]
    );
    assert_eq!(
        &vloadunpacklps_conv(Zmm(8), Mem::new(Gpr::Rdi, 3), Conv::U8, K(0)).bytes[..6],
        &[0x62, 0x72, 0x78, 0x48, 0xd1, 0x87]
    );
    assert_eq!(
        &vloadunpackhps_conv(Zmm(8), Mem::new(Gpr::Rdi, 67), Conv::S8, K(0)).bytes[..6],
        &[0x62, 0x72, 0x78, 0x58, 0xd5, 0x87]
    );
}

#[test]
fn fma_opcodes() {
    assert_eq!(vfnmadd231ps(Zmm(0), Zmm(1), Src::Reg(Zmm(2)), K(0)).bytes[4], 0xbc);
    assert_eq!(vfmsub213ps(Zmm(0), Zmm(1), Src::Reg(Zmm(2)), K(0)).bytes[4], 0xaa);
    assert_eq!(vfmsub231ps(Zmm(0), Zmm(1), Src::Reg(Zmm(2)), K(0)).bytes[4], 0xba);
}

#[test]
fn exp2_and_reciprocal_share_the_0f38_66_row() {
    // 62, then P0 with R X B R' inverted and mm = 10 (0F38), P1 with
    // W 0, vvvv 1111 (none), 1, pp 01 (66), P2 with EH 0, SSS 000,
    // V' 1, aaa 000; then the opcode and a register ModRM.
    let e = vexp223ps(Zmm(1), Zmm(2), K(0));
    assert_eq!(e.bytes, vec![0x62, 0xf2, 0x79, 0x08, 0xc8, 0xca]);
    assert_eq!(e.text, "vexp223ps zmm1, zmm2");
    let r = vrcp23ps(Zmm(3), Zmm(4), K(0));
    assert_eq!(r.bytes, vec![0x62, 0xf2, 0x79, 0x08, 0xca, 0xdc]);
    assert_eq!(r.text, "vrcp23ps zmm3, zmm4");
}

#[test]
fn a_mask_lands_in_aaa() {
    let e = vexp223ps(Zmm(0), Zmm(0), K(3));
    assert_eq!(e.bytes[3] & 7, 3);
}
