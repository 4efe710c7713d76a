//! The decoder's codes, and what is read of an instruction.
use iced_x86::{EncodingKind, MemorySize, Mnemonic, OpKind, Register, RoundingControl};
use phi_avx512::xlate::insn;
use phi_avx512::xlate::insn::{decode, gpr, kreg, vreg};
use phi_avx512::xlate::mnemonic as mn;

#[test]
fn mnemonics_have_the_decoders_numbers() {
    let all = [
        (mn::KANDB, Mnemonic::Kandb),
        (mn::KANDD, Mnemonic::Kandd),
        (mn::KANDNB, Mnemonic::Kandnb),
        (mn::KANDND, Mnemonic::Kandnd),
        (mn::KANDNQ, Mnemonic::Kandnq),
        (mn::KANDNW, Mnemonic::Kandnw),
        (mn::KANDQ, Mnemonic::Kandq),
        (mn::KANDW, Mnemonic::Kandw),
        (mn::KMOVB, Mnemonic::Kmovb),
        (mn::KMOVD, Mnemonic::Kmovd),
        (mn::KMOVQ, Mnemonic::Kmovq),
        (mn::KMOVW, Mnemonic::Kmovw),
        (mn::KNOTB, Mnemonic::Knotb),
        (mn::KNOTD, Mnemonic::Knotd),
        (mn::KNOTQ, Mnemonic::Knotq),
        (mn::KNOTW, Mnemonic::Knotw),
        (mn::KORB, Mnemonic::Korb),
        (mn::KORD, Mnemonic::Kord),
        (mn::KORQ, Mnemonic::Korq),
        (mn::KORTESTB, Mnemonic::Kortestb),
        (mn::KORTESTD, Mnemonic::Kortestd),
        (mn::KORTESTQ, Mnemonic::Kortestq),
        (mn::KORTESTW, Mnemonic::Kortestw),
        (mn::KORW, Mnemonic::Korw),
        (mn::KSHIFTLB, Mnemonic::Kshiftlb),
        (mn::KSHIFTLD, Mnemonic::Kshiftld),
        (mn::KSHIFTLQ, Mnemonic::Kshiftlq),
        (mn::KSHIFTLW, Mnemonic::Kshiftlw),
        (mn::KSHIFTRB, Mnemonic::Kshiftrb),
        (mn::KSHIFTRD, Mnemonic::Kshiftrd),
        (mn::KSHIFTRQ, Mnemonic::Kshiftrq),
        (mn::KSHIFTRW, Mnemonic::Kshiftrw),
        (mn::KUNPCKBW, Mnemonic::Kunpckbw),
        (mn::KXNORB, Mnemonic::Kxnorb),
        (mn::KXNORD, Mnemonic::Kxnord),
        (mn::KXNORQ, Mnemonic::Kxnorq),
        (mn::KXNORW, Mnemonic::Kxnorw),
        (mn::KXORB, Mnemonic::Kxorb),
        (mn::KXORD, Mnemonic::Kxord),
        (mn::KXORQ, Mnemonic::Kxorq),
        (mn::KXORW, Mnemonic::Kxorw),
        (mn::VADDPD, Mnemonic::Vaddpd),
        (mn::VADDPS, Mnemonic::Vaddps),
        (mn::VADDSD, Mnemonic::Vaddsd),
        (mn::VADDSS, Mnemonic::Vaddss),
        (mn::VALIGNQ, Mnemonic::Valignq),
        (mn::VBROADCASTSD, Mnemonic::Vbroadcastsd),
        (mn::VBROADCASTSS, Mnemonic::Vbroadcastss),
        (mn::VCVTPD2PS, Mnemonic::Vcvtpd2ps),
        (mn::VCVTPH2PS, Mnemonic::Vcvtph2ps),
        (mn::VCVTPS2DQ, Mnemonic::Vcvtps2dq),
        (mn::VCVTPS2PH, Mnemonic::Vcvtps2ph),
        (mn::VCVTSD2SI, Mnemonic::Vcvtsd2si),
        (mn::VCVTSD2SS, Mnemonic::Vcvtsd2ss),
        (mn::VCVTSD2USI, Mnemonic::Vcvtsd2usi),
        (mn::VCVTSI2SD, Mnemonic::Vcvtsi2sd),
        (mn::VCVTSI2SS, Mnemonic::Vcvtsi2ss),
        (mn::VCVTSS2SD, Mnemonic::Vcvtss2sd),
        (mn::VCVTSS2SI, Mnemonic::Vcvtss2si),
        (mn::VCVTSS2USI, Mnemonic::Vcvtss2usi),
        (mn::VCVTTPS2DQ, Mnemonic::Vcvttps2dq),
        (mn::VCVTTSD2SI, Mnemonic::Vcvttsd2si),
        (mn::VCVTTSD2USI, Mnemonic::Vcvttsd2usi),
        (mn::VCVTTSS2SI, Mnemonic::Vcvttss2si),
        (mn::VCVTTSS2USI, Mnemonic::Vcvttss2usi),
        (mn::VCVTUSI2SD, Mnemonic::Vcvtusi2sd),
        (mn::VCVTUSI2SS, Mnemonic::Vcvtusi2ss),
        (mn::VDIVPD, Mnemonic::Vdivpd),
        (mn::VDIVPS, Mnemonic::Vdivps),
        (mn::VDIVSD, Mnemonic::Vdivsd),
        (mn::VDIVSS, Mnemonic::Vdivss),
        (mn::VEXTRACTF32X4, Mnemonic::Vextractf32x4),
        (mn::VEXTRACTF32X8, Mnemonic::Vextractf32x8),
        (mn::VEXTRACTF64X2, Mnemonic::Vextractf64x2),
        (mn::VEXTRACTF64X4, Mnemonic::Vextractf64x4),
        (mn::VEXTRACTI32X4, Mnemonic::Vextracti32x4),
        (mn::VEXTRACTI32X8, Mnemonic::Vextracti32x8),
        (mn::VEXTRACTI64X2, Mnemonic::Vextracti64x2),
        (mn::VEXTRACTI64X4, Mnemonic::Vextracti64x4),
        (mn::VFMADD132SD, Mnemonic::Vfmadd132sd),
        (mn::VFMADD132SS, Mnemonic::Vfmadd132ss),
        (mn::VFMADD213PD, Mnemonic::Vfmadd213pd),
        (mn::VFMADD213PS, Mnemonic::Vfmadd213ps),
        (mn::VFMADD213SD, Mnemonic::Vfmadd213sd),
        (mn::VFMADD213SS, Mnemonic::Vfmadd213ss),
        (mn::VFMADD231PD, Mnemonic::Vfmadd231pd),
        (mn::VFMADD231PS, Mnemonic::Vfmadd231ps),
        (mn::VFMADD231SD, Mnemonic::Vfmadd231sd),
        (mn::VFMADD231SS, Mnemonic::Vfmadd231ss),
        (mn::VFMSUB132SD, Mnemonic::Vfmsub132sd),
        (mn::VFMSUB132SS, Mnemonic::Vfmsub132ss),
        (mn::VFMSUB213SD, Mnemonic::Vfmsub213sd),
        (mn::VFMSUB213SS, Mnemonic::Vfmsub213ss),
        (mn::VFMSUB231SD, Mnemonic::Vfmsub231sd),
        (mn::VFMSUB231SS, Mnemonic::Vfmsub231ss),
        (mn::VFNMADD132SD, Mnemonic::Vfnmadd132sd),
        (mn::VFNMADD132SS, Mnemonic::Vfnmadd132ss),
        (mn::VFNMADD213SD, Mnemonic::Vfnmadd213sd),
        (mn::VFNMADD213SS, Mnemonic::Vfnmadd213ss),
        (mn::VFNMADD231SD, Mnemonic::Vfnmadd231sd),
        (mn::VFNMADD231SS, Mnemonic::Vfnmadd231ss),
        (mn::VFNMSUB132SD, Mnemonic::Vfnmsub132sd),
        (mn::VFNMSUB132SS, Mnemonic::Vfnmsub132ss),
        (mn::VFNMSUB213SD, Mnemonic::Vfnmsub213sd),
        (mn::VFNMSUB213SS, Mnemonic::Vfnmsub213ss),
        (mn::VFNMSUB231SD, Mnemonic::Vfnmsub231sd),
        (mn::VFNMSUB231SS, Mnemonic::Vfnmsub231ss),
        (mn::VGATHERDPD, Mnemonic::Vgatherdpd),
        (mn::VGATHERDPS, Mnemonic::Vgatherdps),
        (mn::VINSERTF32X4, Mnemonic::Vinsertf32x4),
        (mn::VINSERTF32X8, Mnemonic::Vinsertf32x8),
        (mn::VINSERTF64X2, Mnemonic::Vinsertf64x2),
        (mn::VINSERTF64X4, Mnemonic::Vinsertf64x4),
        (mn::VINSERTI32X4, Mnemonic::Vinserti32x4),
        (mn::VINSERTI32X8, Mnemonic::Vinserti32x8),
        (mn::VINSERTI64X2, Mnemonic::Vinserti64x2),
        (mn::VINSERTI64X4, Mnemonic::Vinserti64x4),
        (mn::VMAXPD, Mnemonic::Vmaxpd),
        (mn::VMAXPS, Mnemonic::Vmaxps),
        (mn::VMAXSD, Mnemonic::Vmaxsd),
        (mn::VMAXSS, Mnemonic::Vmaxss),
        (mn::VMINPD, Mnemonic::Vminpd),
        (mn::VMINPS, Mnemonic::Vminps),
        (mn::VMINSD, Mnemonic::Vminsd),
        (mn::VMINSS, Mnemonic::Vminss),
        (mn::VMOVAPD, Mnemonic::Vmovapd),
        (mn::VMOVAPS, Mnemonic::Vmovaps),
        (mn::VMOVD, Mnemonic::Vmovd),
        (mn::VMOVDQA32, Mnemonic::Vmovdqa32),
        (mn::VMOVDQA64, Mnemonic::Vmovdqa64),
        (mn::VMOVDQU16, Mnemonic::Vmovdqu16),
        (mn::VMOVDQU32, Mnemonic::Vmovdqu32),
        (mn::VMOVDQU64, Mnemonic::Vmovdqu64),
        (mn::VMOVDQU8, Mnemonic::Vmovdqu8),
        (mn::VMOVHLPS, Mnemonic::Vmovhlps),
        (mn::VMOVLHPS, Mnemonic::Vmovlhps),
        (mn::VMOVQ, Mnemonic::Vmovq),
        (mn::VMOVSD, Mnemonic::Vmovsd),
        (mn::VMOVSS, Mnemonic::Vmovss),
        (mn::VMOVUPD, Mnemonic::Vmovupd),
        (mn::VMOVUPS, Mnemonic::Vmovups),
        (mn::VMULPD, Mnemonic::Vmulpd),
        (mn::VMULPS, Mnemonic::Vmulps),
        (mn::VMULSD, Mnemonic::Vmulsd),
        (mn::VMULSS, Mnemonic::Vmulss),
        (mn::VPABSD, Mnemonic::Vpabsd),
        (mn::VPADDD, Mnemonic::Vpaddd),
        (mn::VPALIGNR, Mnemonic::Vpalignr),
        (mn::VPANDD, Mnemonic::Vpandd),
        (mn::VPANDND, Mnemonic::Vpandnd),
        (mn::VPBROADCASTD, Mnemonic::Vpbroadcastd),
        (mn::VPBROADCASTQ, Mnemonic::Vpbroadcastq),
        (mn::VPCMPB, Mnemonic::Vpcmpb),
        (mn::VPCMPEQB, Mnemonic::Vpcmpeqb),
        (mn::VPCMPEQW, Mnemonic::Vpcmpeqw),
        (mn::VPCMPUB, Mnemonic::Vpcmpub),
        (mn::VPCMPUW, Mnemonic::Vpcmpuw),
        (mn::VPCMPW, Mnemonic::Vpcmpw),
        (mn::VPERMD, Mnemonic::Vpermd),
        (mn::VPERMI2D, Mnemonic::Vpermi2d),
        (mn::VPERMI2PD, Mnemonic::Vpermi2pd),
        (mn::VPERMI2PS, Mnemonic::Vpermi2ps),
        (mn::VPERMI2Q, Mnemonic::Vpermi2q),
        (mn::VPERMILPD, Mnemonic::Vpermilpd),
        (mn::VPERMILPS, Mnemonic::Vpermilps),
        (mn::VPERMPD, Mnemonic::Vpermpd),
        (mn::VPERMPS, Mnemonic::Vpermps),
        (mn::VPERMQ, Mnemonic::Vpermq),
        (mn::VPERMT2D, Mnemonic::Vpermt2d),
        (mn::VPERMT2PD, Mnemonic::Vpermt2pd),
        (mn::VPERMT2PS, Mnemonic::Vpermt2ps),
        (mn::VPERMT2Q, Mnemonic::Vpermt2q),
        (mn::VPGATHERDD, Mnemonic::Vpgatherdd),
        (mn::VPGATHERDQ, Mnemonic::Vpgatherdq),
        (mn::VPMOVSXBD, Mnemonic::Vpmovsxbd),
        (mn::VPMOVSXWD, Mnemonic::Vpmovsxwd),
        (mn::VPMOVZXBD, Mnemonic::Vpmovzxbd),
        (mn::VPMOVZXWD, Mnemonic::Vpmovzxwd),
        (mn::VPMULUDQ, Mnemonic::Vpmuludq),
        (mn::VPORD, Mnemonic::Vpord),
        (mn::VPSLLD, Mnemonic::Vpslld),
        (mn::VPSLLDQ, Mnemonic::Vpslldq),
        (mn::VPSLLQ, Mnemonic::Vpsllq),
        (mn::VPSRAD, Mnemonic::Vpsrad),
        (mn::VPSRAQ, Mnemonic::Vpsraq),
        (mn::VPSRLD, Mnemonic::Vpsrld),
        (mn::VPSRLDQ, Mnemonic::Vpsrldq),
        (mn::VPSRLQ, Mnemonic::Vpsrlq),
        (mn::VPSUBD, Mnemonic::Vpsubd),
        (mn::VPTERNLOGD, Mnemonic::Vpternlogd),
        (mn::VPTERNLOGQ, Mnemonic::Vpternlogq),
        (mn::VPUNPCKHDQ, Mnemonic::Vpunpckhdq),
        (mn::VPUNPCKHQDQ, Mnemonic::Vpunpckhqdq),
        (mn::VPUNPCKLDQ, Mnemonic::Vpunpckldq),
        (mn::VPUNPCKLQDQ, Mnemonic::Vpunpcklqdq),
        (mn::VPXORD, Mnemonic::Vpxord),
        (mn::VRNDSCALEPD, Mnemonic::Vrndscalepd),
        (mn::VRNDSCALEPS, Mnemonic::Vrndscaleps),
        (mn::VRNDSCALESD, Mnemonic::Vrndscalesd),
        (mn::VRNDSCALESS, Mnemonic::Vrndscaless),
        (mn::VSCALEFPS, Mnemonic::Vscalefps),
        (mn::VSHUFPD, Mnemonic::Vshufpd),
        (mn::VSHUFPS, Mnemonic::Vshufps),
        (mn::VSQRTPD, Mnemonic::Vsqrtpd),
        (mn::VSQRTPS, Mnemonic::Vsqrtps),
        (mn::VSQRTSD, Mnemonic::Vsqrtsd),
        (mn::VSQRTSS, Mnemonic::Vsqrtss),
        (mn::VSUBPD, Mnemonic::Vsubpd),
        (mn::VSUBPS, Mnemonic::Vsubps),
        (mn::VSUBSD, Mnemonic::Vsubsd),
        (mn::VSUBSS, Mnemonic::Vsubss),
        (mn::VUNPCKHPD, Mnemonic::Vunpckhpd),
        (mn::VUNPCKHPS, Mnemonic::Vunpckhps),
        (mn::VUNPCKLPD, Mnemonic::Vunpcklpd),
        (mn::VUNPCKLPS, Mnemonic::Vunpcklps),
    ];
    for (code, m) in all {
        assert_eq!(code, m as u16, "{m:?}");
    }
}

#[test]
fn the_other_codes_have_the_decoders_numbers() {
    assert_eq!(insn::KIND_REGISTER, OpKind::Register as u8);
    assert_eq!(insn::KIND_IMM8, OpKind::Immediate8 as u8);
    assert_eq!(insn::KIND_MEMORY, OpKind::Memory as u8);
    assert_eq!(insn::ENCODING_VEX, EncodingKind::VEX as u8);
    assert_eq!(insn::ENCODING_EVEX, EncodingKind::EVEX as u8);
    assert_eq!(insn::ROUNDING_NONE, RoundingControl::None as u8);
    assert_eq!(insn::SIZE_UINT64, MemorySize::UInt64 as u8);
    assert_eq!(insn::SIZE_INT64, MemorySize::Int64 as u8);
    let regs = [
        (insn::REG_NONE, Register::None),
        (insn::REG_EAX, Register::EAX),
        (insn::REG_R15D, Register::R15D),
        (insn::REG_RAX, Register::RAX),
        (insn::REG_RSP, Register::RSP),
        (insn::REG_R12, Register::R12),
        (insn::REG_R15, Register::R15),
        (insn::REG_XMM0, Register::XMM0),
        (insn::REG_XMM31, Register::XMM31),
        (insn::REG_YMM0, Register::YMM0),
        (insn::REG_YMM31, Register::YMM31),
        (insn::REG_ZMM0, Register::ZMM0),
        (insn::REG_ZMM31, Register::ZMM31),
        (insn::REG_K0, Register::K0),
        (insn::REG_K7, Register::K7),
    ];
    for (code, r) in regs {
        assert_eq!(code, r as u8, "{r:?}");
    }
}

#[test]
fn register_codes_have_numbers() {
    assert_eq!(vreg(Register::ZMM31 as u8), Some(31));
    assert_eq!(vreg(Register::YMM7 as u8), Some(7));
    assert_eq!(vreg(Register::XMM0 as u8), Some(0));
    assert_eq!(vreg(Register::RAX as u8), None);
    assert_eq!(kreg(Register::K5 as u8), Some(5));
    assert_eq!(kreg(Register::ZMM0 as u8), None);
    assert_eq!(gpr(Register::R13 as u8), Some((13, true)));
    assert_eq!(gpr(Register::EDI as u8), Some((7, false)));
    assert_eq!(gpr(Register::AX as u8), None);
}

#[test]
fn an_instruction_is_read_whole() {
    // vfmadd213ps zmm0{k3}{z}, zmm1, dword ptr [r9+rax*4+0x40]{1to16}
    let d = decode(&[0x62, 0xd2, 0x75, 0xdb, 0xa8, 0x44, 0x81, 0x10], 0x1000);
    assert_eq!(d.ip, 0x1000);
    assert_eq!(d.head.mnemonic, mn::VFMADD213PS);
    assert_eq!(d.head.encoding, insn::ENCODING_EVEX);
    assert_eq!((d.head.len, d.head.op_count), (8, 3));
    assert_eq!(d.head.mask, Register::K3 as u8);
    assert!(d.head.zeroing && d.head.broadcast);
    assert_eq!(d.head.rounding, insn::ROUNDING_NONE);
    assert_eq!((d.op_kind(0), d.op_kind(2)), (insn::KIND_REGISTER, insn::KIND_MEMORY));
    assert_eq!(d.op_register(1), Register::ZMM1 as u8);
    assert_eq!((d.mem.base, d.mem.index), (Register::R9 as u8, Register::RAX as u8));
    assert_eq!((d.mem.scale, d.mem.disp, d.mem.rip), (4, 0x40, false));
    assert_eq!(d.mem.segment, insn::REG_NONE);
    assert_eq!(d.text, "vfmadd213ps zmm0{k3}{z},zmm1,dword bcst [r9+rax*4+40h]");
    // vaddps zmm0, zmm1, [rip+0x10]
    let d = decode(&[0x62, 0xf1, 0x74, 0x48, 0x58, 0x05, 0x10, 0, 0, 0], 0x1000);
    assert!(d.mem.rip);
    assert_eq!(d.mem.rip_address, 0x1000 + 10 + 0x10);
    // vpermq zmm1, zmm2, 0x1b
    let d = decode(&[0x62, 0xf3, 0xfd, 0x48, 0x00, 0xca, 0x1b], 0);
    assert_eq!((d.head.imm8, d.op_kind(2)), (0x1b, insn::KIND_IMM8));
    // {rz-sae}
    let d = decode(&[0x62, 0xf1, 0x74, 0x78, 0x58, 0xc2], 0);
    assert_eq!(d.head.rounding, RoundingControl::RoundTowardZero as u8);
    // vcvtsi2sd xmm0, xmm1, qword ptr fs:[rax]
    let d = decode(&[0x64, 0x62, 0xf1, 0xf7, 0x08, 0x2a, 0x00], 0);
    assert_eq!((d.mem.segment, d.mem.size), (Register::FS as u8, insn::SIZE_INT64));
    // kandw k1, k2, k3
    let d = decode(&[0xc5, 0xec, 0x41, 0xcb], 0);
    assert_eq!((d.head.encoding, d.head.mnemonic), (insn::ENCODING_VEX, mn::KANDW));
}
