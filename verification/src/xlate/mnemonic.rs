//! The instruction names the rewriter knows, as iced-x86 numbers them
//! (`iced_x86::Mnemonic`).
use vstd::prelude::*;

verus! {

pub const KANDB: u16 = 322;
pub const KANDD: u16 = 323;
pub const KANDNB: u16 = 324;
pub const KANDND: u16 = 325;
pub const KANDNQ: u16 = 326;
pub const KANDNW: u16 = 327;
pub const KANDQ: u16 = 328;
pub const KANDW: u16 = 329;
pub const KMOVB: u16 = 330;
pub const KMOVD: u16 = 331;
pub const KMOVQ: u16 = 332;
pub const KMOVW: u16 = 333;
pub const KNOTB: u16 = 334;
pub const KNOTD: u16 = 335;
pub const KNOTQ: u16 = 336;
pub const KNOTW: u16 = 337;
pub const KORB: u16 = 338;
pub const KORD: u16 = 339;
pub const KORQ: u16 = 340;
pub const KORTESTB: u16 = 341;
pub const KORTESTD: u16 = 342;
pub const KORTESTQ: u16 = 343;
pub const KORTESTW: u16 = 344;
pub const KORW: u16 = 345;
pub const KSHIFTLB: u16 = 346;
pub const KSHIFTLD: u16 = 347;
pub const KSHIFTLQ: u16 = 348;
pub const KSHIFTLW: u16 = 349;
pub const KSHIFTRB: u16 = 350;
pub const KSHIFTRD: u16 = 351;
pub const KSHIFTRQ: u16 = 352;
pub const KSHIFTRW: u16 = 353;
pub const KUNPCKBW: u16 = 358;
pub const KXNORB: u16 = 361;
pub const KXNORD: u16 = 362;
pub const KXNORQ: u16 = 363;
pub const KXNORW: u16 = 364;
pub const KXORB: u16 = 365;
pub const KXORD: u16 = 366;
pub const KXORQ: u16 = 367;
pub const KXORW: u16 = 368;
pub const VADDPD: u16 = 771;
pub const VADDPS: u16 = 772;
pub const VADDSD: u16 = 773;
pub const VADDSS: u16 = 774;
pub const VALIGNQ: u16 = 784;
pub const VBROADCASTSD: u16 = 807;
pub const VBROADCASTSS: u16 = 808;
pub const VCVTPD2PS: u16 = 822;
pub const VCVTPH2PS: u16 = 826;
pub const VCVTPS2DQ: u16 = 827;
pub const VCVTPS2PH: u16 = 829;
pub const VCVTSD2SI: u16 = 835;
pub const VCVTSD2SS: u16 = 836;
pub const VCVTSD2USI: u16 = 837;
pub const VCVTSI2SD: u16 = 838;
pub const VCVTSI2SS: u16 = 839;
pub const VCVTSS2SD: u16 = 840;
pub const VCVTSS2SI: u16 = 841;
pub const VCVTSS2USI: u16 = 842;
pub const VCVTTPS2DQ: u16 = 847;
pub const VCVTTSD2SI: u16 = 851;
pub const VCVTTSD2USI: u16 = 852;
pub const VCVTTSS2SI: u16 = 853;
pub const VCVTTSS2USI: u16 = 854;
pub const VCVTUSI2SD: u16 = 859;
pub const VCVTUSI2SS: u16 = 860;
pub const VDIVPD: u16 = 862;
pub const VDIVPS: u16 = 863;
pub const VDIVSD: u16 = 864;
pub const VDIVSS: u16 = 865;
pub const VEXTRACTF32X4: u16 = 876;
pub const VEXTRACTF32X8: u16 = 877;
pub const VEXTRACTF64X2: u16 = 878;
pub const VEXTRACTF64X4: u16 = 879;
pub const VEXTRACTI32X4: u16 = 881;
pub const VEXTRACTI32X8: u16 = 882;
pub const VEXTRACTI64X2: u16 = 883;
pub const VEXTRACTI64X4: u16 = 884;
pub const VFMADD132SD: u16 = 892;
pub const VFMADD132SS: u16 = 893;
pub const VFMADD213PD: u16 = 894;
pub const VFMADD213PS: u16 = 895;
pub const VFMADD213SD: u16 = 896;
pub const VFMADD213SS: u16 = 897;
pub const VFMADD231PD: u16 = 898;
pub const VFMADD231PS: u16 = 899;
pub const VFMADD231SD: u16 = 900;
pub const VFMADD231SS: u16 = 901;
pub const VFMSUB132SD: u16 = 916;
pub const VFMSUB132SS: u16 = 917;
pub const VFMSUB213SD: u16 = 920;
pub const VFMSUB213SS: u16 = 921;
pub const VFMSUB231SD: u16 = 924;
pub const VFMSUB231SS: u16 = 925;
pub const VFNMADD132SD: u16 = 940;
pub const VFNMADD132SS: u16 = 941;
pub const VFNMADD213SD: u16 = 944;
pub const VFNMADD213SS: u16 = 945;
pub const VFNMADD231SD: u16 = 948;
pub const VFNMADD231SS: u16 = 949;
pub const VFNMSUB132SD: u16 = 956;
pub const VFNMSUB132SS: u16 = 957;
pub const VFNMSUB213SD: u16 = 960;
pub const VFNMSUB213SS: u16 = 961;
pub const VFNMSUB231SD: u16 = 964;
pub const VFNMSUB231SS: u16 = 965;
pub const VGATHERDPD: u16 = 978;
pub const VGATHERDPS: u16 = 979;
pub const VINSERTF32X4: u16 = 1006;
pub const VINSERTF32X8: u16 = 1007;
pub const VINSERTF64X2: u16 = 1008;
pub const VINSERTF64X4: u16 = 1009;
pub const VINSERTI32X4: u16 = 1011;
pub const VINSERTI32X8: u16 = 1012;
pub const VINSERTI64X2: u16 = 1013;
pub const VINSERTI64X4: u16 = 1014;
pub const VMAXPD: u16 = 1021;
pub const VMAXPS: u16 = 1022;
pub const VMAXSD: u16 = 1023;
pub const VMAXSS: u16 = 1024;
pub const VMINPD: u16 = 1028;
pub const VMINPS: u16 = 1029;
pub const VMINSD: u16 = 1030;
pub const VMINSS: u16 = 1031;
pub const VMOVAPD: u16 = 1035;
pub const VMOVAPS: u16 = 1036;
pub const VMOVD: u16 = 1037;
pub const VMOVDQA32: u16 = 1040;
pub const VMOVDQA64: u16 = 1041;
pub const VMOVDQU16: u16 = 1043;
pub const VMOVDQU32: u16 = 1044;
pub const VMOVDQU64: u16 = 1045;
pub const VMOVDQU8: u16 = 1046;
pub const VMOVHLPS: u16 = 1047;
pub const VMOVLHPS: u16 = 1050;
pub const VMOVQ: u16 = 1059;
pub const VMOVSD: u16 = 1060;
pub const VMOVSS: u16 = 1063;
pub const VMOVUPD: u16 = 1064;
pub const VMOVUPS: u16 = 1065;
pub const VMULPD: u16 = 1073;
pub const VMULPS: u16 = 1074;
pub const VMULSD: u16 = 1075;
pub const VMULSS: u16 = 1076;
pub const VPABSD: u16 = 1087;
pub const VPADDD: u16 = 1095;
pub const VPALIGNR: u16 = 1102;
pub const VPANDD: u16 = 1104;
pub const VPANDND: u16 = 1106;
pub const VPBROADCASTD: u16 = 1119;
pub const VPBROADCASTQ: u16 = 1122;
pub const VPCMPB: u16 = 1126;
pub const VPCMPEQB: u16 = 1128;
pub const VPCMPEQW: u16 = 1131;
pub const VPCMPUB: u16 = 1143;
pub const VPCMPUW: u16 = 1146;
pub const VPCMPW: u16 = 1147;
pub const VPERMD: u16 = 1169;
pub const VPERMI2D: u16 = 1171;
pub const VPERMI2PD: u16 = 1172;
pub const VPERMI2PS: u16 = 1173;
pub const VPERMI2Q: u16 = 1174;
pub const VPERMILPD: u16 = 1178;
pub const VPERMILPS: u16 = 1179;
pub const VPERMPD: u16 = 1180;
pub const VPERMPS: u16 = 1181;
pub const VPERMQ: u16 = 1182;
pub const VPERMT2D: u16 = 1184;
pub const VPERMT2PD: u16 = 1185;
pub const VPERMT2PS: u16 = 1186;
pub const VPERMT2Q: u16 = 1187;
pub const VPGATHERDD: u16 = 1198;
pub const VPGATHERDQ: u16 = 1199;
pub const VPMOVSXBD: u16 = 1283;
pub const VPMOVSXWD: u16 = 1287;
pub const VPMOVZXBD: u16 = 1297;
pub const VPMOVZXWD: u16 = 1301;
pub const VPMULUDQ: u16 = 1311;
pub const VPORD: u16 = 1317;
pub const VPSLLD: u16 = 1365;
pub const VPSLLDQ: u16 = 1366;
pub const VPSLLQ: u16 = 1367;
pub const VPSRAD: u16 = 1372;
pub const VPSRAQ: u16 = 1373;
pub const VPSRLD: u16 = 1378;
pub const VPSRLDQ: u16 = 1379;
pub const VPSRLQ: u16 = 1380;
pub const VPSUBD: u16 = 1386;
pub const VPTERNLOGD: u16 = 1393;
pub const VPTERNLOGQ: u16 = 1394;
pub const VPUNPCKHDQ: u16 = 1405;
pub const VPUNPCKHQDQ: u16 = 1406;
pub const VPUNPCKLDQ: u16 = 1409;
pub const VPUNPCKLQDQ: u16 = 1410;
pub const VPXORD: u16 = 1413;
pub const VRNDSCALEPD: u16 = 1433;
pub const VRNDSCALEPS: u16 = 1434;
pub const VRNDSCALESD: u16 = 1435;
pub const VRNDSCALESS: u16 = 1436;
pub const VSCALEFPS: u16 = 1452;
pub const VSHUFPD: u16 = 1471;
pub const VSHUFPS: u16 = 1472;
pub const VSQRTPD: u16 = 1473;
pub const VSQRTPS: u16 = 1474;
pub const VSQRTSD: u16 = 1475;
pub const VSQRTSS: u16 = 1476;
pub const VSUBPD: u16 = 1478;
pub const VSUBPS: u16 = 1479;
pub const VSUBSD: u16 = 1480;
pub const VSUBSS: u16 = 1481;
pub const VUNPCKHPD: u16 = 1486;
pub const VUNPCKHPS: u16 = 1487;
pub const VUNPCKLPD: u16 = 1488;
pub const VUNPCKLPS: u16 = 1489;

} // verus!
