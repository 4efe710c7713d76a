//! Rewritten instructions run on a small model of the card: what they leave
//! in the registers is what the AVX-512 instruction leaves.
use phi_avx512::vpu::half::{f16_to_f32, f32_to_f16};
use phi_avx512::xlate::code::{FixupKind, Rewrite, Target, Thunk};
use phi_avx512::xlate::insn::decode;
use phi_avx512::xlate::rewrite::{rewrite_at, rewrite_bytecmp_checked};
use std::collections::HashMap;

const TG: Target = Target { scratch: -0x1000 };

type Lanes = [u32; 16];

/// What rdx, the base of the memory operands here, holds.
const RDX: u64 = 0x7f00_0024;

/// What is on top of the x87 stack.
#[derive(Clone, Copy, PartialEq, Debug)]
enum Top {
    Empty,
    Integer(i64),
    Float(f64),
}

/// The card's registers, the scratch area behind fs, and memory by dwords.
#[derive(Clone, PartialEq, Debug)]
struct Machine {
    /// The zero and the carry flag.
    zero: bool,
    carry: bool,
    top: Top,
    cw: u16,
    z: Vec<Lanes>,
    k: [u16; 8],
    rax: u64,
    rcx: u64,
    mem: HashMap<i32, Vec<u8>>,
    data: HashMap<u64, u32>,
}

fn seed(x: u32) -> u32 {
    let a = x.wrapping_mul(0x9e37_79b9).wrapping_add(0x7f4a_7c15);
    (a ^ (a >> 15)).wrapping_mul(0x85eb_ca6b) ^ (a >> 7)
}

impl Machine {
    fn new() -> Machine {
        Machine {
            zero: false,
            carry: true,
            top: Top::Empty,
            cw: 0x037f,
            z: (0..32)
                .map(|r| std::array::from_fn(|i| seed(100 * r + i as u32)))
                .collect(),
            k: [0xffff, 0xa5c3, 0x00f1, 0x1234, 0, 0xffff, 0x8001, 0x5a5a],
            rax: 0x1122_3344_5566_7788,
            rcx: 0x99aa_bbcc_ddee_ff00,
            mem: HashMap::new(),
            data: (0..256)
                .map(|i| (RDX - 512 + 4 * i, seed(9000 + i as u32)))
                .collect(),
        }
    }

    /// With the floats in the registers of the second and first source that
    /// compares tell apart.
    fn with_numbers() -> Machine {
        let mut m = Machine::new();
        let (nan, inf) = (f32::NAN.to_bits(), f32::INFINITY.to_bits());
        let (one, two) = (1f32.to_bits(), 2f32.to_bits());
        let minus = 0x8000_0000;
        m.z[17] = [
            one, two, one, nan, one, nan, 0, minus, inf, minus | inf, minus | one, minus | two, one,
            minus | one, 1, minus | 1,
        ];
        m.z[9] = [
            two, one, one, one, nan, nan, minus, 0, one, one, minus | two, minus | one, minus | one,
            one, 0, 0,
        ];
        m
    }

    /// The sixteen dwords from `a` on.
    fn dwords(&self, a: u64) -> Lanes {
        std::array::from_fn(|i| self.data[&(a + 4 * i as u64)])
    }

    /// Half of an unaligned pair: the dwords of the lanes selected follow
    /// each other, the low half moving those in the first one's line.
    fn half_pair(&mut self, reg: usize, k: usize, a: u64, low: bool, store: bool) {
        let mut y = a;
        for l in 0..16 {
            if k != 0 && (self.k[k] >> l) & 1 == 0 {
                continue;
            }
            if (y / 64 == a / 64) == low {
                if store {
                    self.data.insert(y, self.z[reg][l]);
                } else {
                    self.z[reg][l] = self.data[&y];
                }
            }
            y += 4;
        }
    }

    /// The byte at `a`.
    fn byte(&self, a: u64) -> u8 {
        self.data[&(a / 4 * 4)].to_le_bytes()[(a % 4) as usize]
    }

    /// Half of an unaligned load that converts what it loads.
    fn converting_half(&mut self, reg: usize, k: usize, a: u64, low: bool, conv: u8) {
        let size = element_size(conv) as u64;
        let mut y = a;
        for l in 0..16 {
            if k != 0 && (self.k[k] >> l) & 1 == 0 {
                continue;
            }
            if (y / 64 == a / 64) == low {
                let b: Vec<u8> = (y..y + size).map(|y| self.byte(y)).collect();
                self.z[reg][l] = converted(conv, &b);
            }
            y += size;
        }
    }

    /// 64 bytes of the scratch area.
    fn slot(&mut self, disp: i32) -> &mut Vec<u8> {
        let v = self.mem.entry(disp).or_default();
        v.resize(64, 0);
        v
    }

    fn gpr(&mut self, r: u8) -> &mut u64 {
        match r {
            0 => &mut self.rax,
            1 => &mut self.rcx,
            _ => panic!("general register {r}"),
        }
    }

    /// Runs the sequence of a thunk to its end.
    fn run(&mut self, t: &Thunk) {
        let mut at = 0;
        while at < t.seq.len() {
            at = self.one(t, at);
        }
        assert_eq!(at, t.seq.len());
    }

    /// Runs the instruction at `at`; where the next one is.
    fn one(&mut self, t: &Thunk, at: usize) -> usize {
        let b = &t.seq;
        let mut i = at;
        let fs = b[i] == 0x64;
        if fs {
            i += 1;
        }
        if b[i] == 0x62 {
            return self.mvex(t, i);
        }
        if b[i] == 0xb8 {
            self.rax = i32::from_le_bytes(b[i + 1..i + 5].try_into().unwrap()) as u32 as u64;
            return i + 5;
        }
        if !fs {
            if let Some(end) = self.general(&b[i..]) {
                return i + end;
            }
        }
        if b[i..i + 2] == [0xc5, 0xf8] {
            let (op, modrm) = (b[i + 2], b[i + 3]);
            let (reg, rm) = (((modrm >> 3) & 7) as usize, (modrm & 7) as usize);
            match op {
                0x90 => self.k[reg] = self.k[rm],
                0x92 => self.k[reg] = *self.gpr(rm as u8) as u16,
                0x93 => *self.gpr(reg as u8) = self.k[rm] as u64,
                0x41 => self.k[reg] &= self.k[rm],
                0x44 => self.k[reg] = !self.k[rm],
                0x42 => self.k[reg] = !self.k[reg] & self.k[rm],
                0x45 => self.k[reg] |= self.k[rm],
                0x98 => {
                    self.zero = self.k[reg] | self.k[rm] == 0;
                    self.carry = self.k[reg] | self.k[rm] == 0xffff;
                }
                _ => panic!("mask instruction {op:02x}"),
            }
            return i + 4;
        }
        if b[i..i + 2] == [0x66, 0x64] {
            assert_eq!(b[i + 2..i + 5], [0x89, 0x04, 0x25]);
            let disp = i32::from_le_bytes(b[i + 5..i + 9].try_into().unwrap());
            let word = (self.rax as u16).to_le_bytes();
            self.slot(disp)[..2].copy_from_slice(&word);
            return i + 9;
        }
        let wide = b[i] == 0x48;
        if wide {
            i += 1;
        }
        if fs && b[i] == 0x0f {
            i += 1;
        }
        assert!(fs, "{:02x?}", &b[at..]);
        let disp = i32::from_le_bytes(b[i + 3..i + 7].try_into().unwrap());
        assert_eq!((b[i + 1] & 0xc7, b[i + 2]), (0x04, 0x25));
        let r = (b[i + 1] >> 3) & 7;
        match b[i] {
            0x89 => {
                let v = self.gpr(r).to_le_bytes().to_vec();
                self.mem.insert(disp, v);
            }
            0x8b => {
                let v = u64::from_le_bytes(self.mem[&disp][..8].try_into().unwrap());
                *self.gpr(r) = if wide { v } else { v as u32 as u64 };
            }
            0xb7 => {
                let v = self.slot(disp);
                *self.gpr(r) = u16::from_le_bytes([v[0], v[1]]) as u64;
            }
            op @ (0xd9 | 0xdd | 0xdf) => self.x87(op, r, disp),
            op => panic!("opcode {op:02x}"),
        }
        i + 7
    }

    /// x87's instructions on the scratch area.
    fn x87(&mut self, op: u8, ext: u8, disp: i32) {
        let v: [u8; 8] = self.slot(disp)[..8].try_into().unwrap();
        let low: [u8; 4] = v[..4].try_into().unwrap();
        let out = match (op, ext) {
            (0xdf, 5) => {
                self.top = Top::Integer(i64::from_le_bytes(v));
                return;
            }
            (0xdd, 0) => {
                self.top = Top::Float(f64::from_le_bytes(v));
                return;
            }
            (0xd9, 0) => {
                self.top = Top::Float(f32::from_le_bytes(low) as f64);
                return;
            }
            (0xd9, 5) => {
                self.cw = u16::from_le_bytes([v[0], v[1]]);
                return;
            }
            (0xd9, 7) => self.cw.to_le_bytes().to_vec(),
            (0xdd, 3) => {
                let Top::Integer(n) = self.top else { panic!("no integer") };
                (n as f64).to_le_bytes().to_vec()
            }
            (0xd9, 3) => {
                let Top::Integer(n) = self.top else { panic!("no integer") };
                (n as f32).to_le_bytes().to_vec()
            }
            (0xdf, 7) => {
                let Top::Float(x) = self.top else { panic!("no float") };
                let x = if self.cw & 0xc00 == 0xc00 { x.trunc() } else { x.round_ties_even() };
                let fits = x >= -(2f64.powi(63)) && x < 2f64.powi(63);
                (if fits { x as i64 } else { i64::MIN }).to_le_bytes().to_vec()
            }
            _ => panic!("x87 {op:02x} /{ext}"),
        };
        if ext != 7 || op == 0xdf {
            self.top = Top::Empty;
        }
        self.slot(disp)[..out.len()].copy_from_slice(&out);
    }

    /// The moves of a general register, or between rax and memory, and the few
    /// instructions round the flags; where the next one is.
    fn general(&mut self, b: &[u8]) -> Option<usize> {
        if b[0] == 0x9f {
            let flags = 2 | (self.zero as u64) << 6 | self.carry as u64;
            self.rax = self.rax & !0xff00 | flags << 8;
            return Some(1);
        }
        if b[0] == 0x9e {
            self.zero = self.rax & 0x4000 != 0;
            self.carry = self.rax & 0x100 != 0;
            return Some(1);
        }
        if b.starts_with(&[0x0f, 0x90, 0xc0]) {
            self.rax &= !0xff;
            return Some(3);
        }
        if b.starts_with(&[0x04, 0x7f]) {
            let al = (self.rax as u8).wrapping_add(0x7f);
            self.rax = self.rax & !0xff | al as u64;
            (self.zero, self.carry) = (al == 0, false);
            return Some(2);
        }
        if b.starts_with(&[0x80, 0xcc, 0x0c]) {
            self.rax |= 0x0c00;
            (self.zero, self.carry) = (false, false);
            return Some(3);
        }
        let (mut i, mut wide, mut short) = (0, false, false);
        if b[0] == 0x48 {
            (i, wide) = (1, true);
        } else if b[0] == 0x66 && b[1] != 0x64 {
            (i, short) = (1, true);
        }
        let two = b[i] == 0x0f;
        let (op, modrm) = if two { (b[i + 1], b[i + 2]) } else { (b[i], b[i + 1]) };
        if !matches!((two, op), (true, 0xb6 | 0xb7) | (false, 0x63 | 0x88 | 0x89 | 0x8b)) {
            return None;
        }
        i += if two { 3 } else { 2 };
        if modrm >> 6 == 3 {
            assert_eq!(modrm & 0x38, 0);
            let x = *self.gpr(modrm & 7) as u32;
            self.rax = if op == 0x63 { x as i32 as i64 as u64 } else { x as u64 };
            return Some(i);
        }
        assert_eq!((modrm >> 6, modrm & 0x38), (2, 0), "{b:02x?}");
        let disp = i32::from_le_bytes(b[i..i + 4].try_into().unwrap());
        let a = [self.rax, self.rcx, RDX][(modrm & 7) as usize].wrapping_add_signed(disp as i64);
        let n = match op {
            0xb6 | 0x88 => 1,
            0xb7 => 2,
            _ if short => 2,
            0x63 => 4,
            _ if wide => 8,
            _ => 4,
        };
        if op == 0x88 || op == 0x89 {
            let v = self.rax.to_le_bytes();
            for (y, byte) in (a..a + n).zip(v) {
                let mut d = self.data[&(y / 4 * 4)].to_le_bytes();
                d[(y % 4) as usize] = byte;
                self.data.insert(y / 4 * 4, u32::from_le_bytes(d));
            }
        } else {
            let x = (0..n).fold(0u64, |x, j| x | (self.byte(a + j) as u64) << (8 * j));
            self.rax = if op == 0x63 { x as i32 as i64 as u64 } else { x };
        }
        Some(i + 4)
    }

    fn mvex(&mut self, t: &Thunk, i: usize) -> usize {
        let b = &t.seq;
        let (p0, p1, p2, op, modrm) = (b[i + 1], b[i + 2], b[i + 3], b[i + 4], b[i + 5]);
        let map = p0 & 0xf;
        let bit = |x: u8, n: u8| (!x >> n) & 1;
        let reg = ((modrm >> 3) & 7 | bit(p0, 7) << 3 | bit(p0, 4) << 4) as usize;
        let vvvv = ((!p1 >> 3) & 0xf | bit(p2, 3) << 4) as usize;
        let (w, k) = (p1 >> 7, (p2 & 7) as usize);
        let conv = (p2 >> 4) & 7;
        assert_eq!(p1 & 4, 0);
        let mut end = i + 6;
        let mut scratch = None;
        let src: Option<Lanes> = match modrm >> 6 {
            3 => {
                let rm = (modrm & 7 | bit(p0, 5) << 3 | bit(p0, 6) << 4) as usize;
                Some(self.z[rm])
            }
            0 if modrm & 7 == 4 => {
                assert_eq!(b[i + 6], 0x25);
                let disp = i32::from_le_bytes(b[i + 7..i + 11].try_into().unwrap());
                scratch = Some(disp);
                end = i + 11;
                let selected: Vec<usize> =
                    (0..16).filter(|&l| k == 0 || (self.k[k] >> l) & 1 == 1).collect();
                let z = self.z[reg];
                match (map, op, conv) {
                    (2, 0xd0, 0) => {
                        for (n, l) in selected.into_iter().enumerate() {
                            self.slot(disp)[4 * n..4 * n + 4].copy_from_slice(&z[l].to_le_bytes());
                        }
                        return end;
                    }
                    (1, 0x29, 3) => {
                        for l in selected {
                            let h = f32_to_f16(z[l]).to_le_bytes();
                            self.slot(disp)[2 * l..2 * l + 2].copy_from_slice(&h);
                        }
                        return end;
                    }
                    (1, 0x28, 3) | (1, 0x6f, 4..=7) => {
                        let n = element_size(conv);
                        let m = self.slot(disp).clone();
                        Some(std::array::from_fn(|l| converted(conv, &m[n * l..n * l + n])))
                    }
                    (2, 0x18, 0) | (2, 0x19, 0) => {
                        let m = lanes(self.slot(disp));
                        Some(std::array::from_fn(|l| m[if w == 1 { l % 2 } else { 0 }]))
                    }
                    _ => self.mem.get(&disp).map(|m| lanes(m)),
                }
            }
            2 if modrm & 7 <= 2 => {
                let disp = i32::from_le_bytes(b[i + 6..i + 10].try_into().unwrap());
                let base = [self.rax, self.rcx, RDX][(modrm & 7) as usize];
                let a = base.wrapping_add_signed(disp as i64);
                end = i + 10;
                let broadcast = |w: u8| -> Lanes {
                    std::array::from_fn(|l| {
                        self.data[&(a + if w == 1 { 4 * (l as u64 % 2) } else { 0 })]
                    })
                };
                match (map, op) {
                    (2, 0xd0) | (2, 0xd1) if conv != 0 => {
                        self.converting_half(reg, k, a, true, conv);
                        return end;
                    }
                    (2, 0xd4) | (2, 0xd5) if conv != 0 => {
                        self.converting_half(reg, k, a - 64, false, conv);
                        return end;
                    }
                    (2, 0xd0) => {
                        self.half_pair(reg, k, a, true, p1 & 3 == 1);
                        return end;
                    }
                    (2, 0xd4) => {
                        self.half_pair(reg, k, a - 64, false, p1 & 3 == 1);
                        return end;
                    }
                    (2, 0x18) | (2, 0x19) => Some(broadcast(w)),
                    _ => {
                        assert_eq!(conv, 1, "a broadcast");
                        Some(broadcast(w))
                    }
                }
            }
            0 if modrm & 7 == 5 => {
                end = i + 10;
                let f = t.fixups.iter().find(|f| f.disp_at == i + 6).expect("a fixup");
                match f.what {
                    FixupKind::Const(c) => Some(lanes(&t.consts[c])),
                    FixupKind::Rip(_) => panic!("an address"),
                }
            }
            _ => panic!("operand {modrm:02x}"),
        };
        let imm = if map == 3 || (map == 1 && matches!(op, 0x70 | 0x72 | 0xc2)) {
            end += 1;
            b[end - 1]
        } else {
            0
        };
        if (map, op) == (1, 0x29) {
            let bytes = self.z[reg].iter().flat_map(|v| v.to_le_bytes()).collect();
            self.mem.insert(scratch.unwrap(), bytes);
            return end;
        }
        if modrm >> 6 != 2 && scratch.is_none() {
            assert_eq!(conv, 0, "no swizzle");
        }
        let (a, s) = (self.z[vvvv], src.unwrap());
        let holds: Option<Box<dyn Fn(usize) -> bool>> = match (map, op) {
            (1, 0xc2) => Some(Box::new(move |l| fulfils(imm, w, &a, &s, l))),
            (1, 0x76) => Some(Box::new(move |l| a[l] == s[l])),
            (1, 0x66) => Some(Box::new(move |l| a[l] as i32 > s[l] as i32)),
            (2, 0x27) => Some(Box::new(move |l| a[l] & s[l] != 0)),
            (3, 0x1f) => Some(Box::new(move |l| integer_holds(imm, (a[l] as i32).cmp(&(s[l] as i32))))),
            (3, 0x1e) => Some(Box::new(move |l| integer_holds(imm, a[l].cmp(&s[l])))),
            _ => None,
        };
        if let Some(f) = holds {
            let n = if w == 1 { 8 } else { 16 };
            self.k[reg] = (0..n)
                .filter(|&l| (k == 0 || (self.k[k] >> l) & 1 == 1) && f(l))
                .fold(0, |m, l| m | 1 << l);
            return end;
        }
        if map == 2 && (op == 0x64 || op == 0x65) {
            self.z[reg] = std::array::from_fn(|l| {
                let e = if w == 0 { l } else { l / 2 };
                if k == 0 || (self.k[k] >> e) & 1 == 1 { s[l] } else { a[l] }
            });
            return end;
        }
        let each = |f: &dyn Fn(u32, u32) -> u32| std::array::from_fn(|l| f(a[l], s[l]));
        let mut dest = reg;
        let new: Lanes = match (map, op) {
            (1, 0x28) | (1, 0x6f) => s,
            (1, 0x5a) if w == 0 => std::array::from_fn(|l| {
                half_of((f32::from_bits(s[l / 2]) as f64).to_bits(), l)
            }),
            (1, 0x5a) => std::array::from_fn(|l| {
                if l < 8 { (float(1, &s, l) as f32).to_bits() } else { seed(l as u32) }
            }),
            (1, 0x58) => each(&|x, y| (f32::from_bits(x) + f32::from_bits(y)).to_bits()),
            (1, 0xdb) => each(&|x, y| x & y),
            (1, 0xdf) => each(&|x, y| !x & y),
            (1, 0xeb) => each(&|x, y| x | y),
            (1, 0xef) => each(&|x, y| x ^ y),
            (1, 0xfe) => each(&|x, y| x.wrapping_add(y)),
            (1, 0xfa) => each(&|x, y| x.wrapping_sub(y)),
            (1, 0x70) => std::array::from_fn(|l| s[l / 4 * 4 + ((imm >> (2 * (l % 4))) & 3) as usize]),
            (1, 0x72) => {
                dest = vvvv;
                std::array::from_fn(|l| match reg & 7 {
                    2 => s[l] >> imm,
                    4 => ((s[l] as i32) >> imm) as u32,
                    6 => s[l] << imm,
                    e => panic!("shift {e}"),
                })
            }
            (2, 0x18) | (2, 0x19) => s,
            (2, 0x45) => each(&|x, y| if y < 32 { x >> y } else { 0 }),
            (2, 0x46) => each(&|x, y| ((x as i32) >> y.min(31)) as u32),
            (2, 0x47) => each(&|x, y| if y < 32 { x << y } else { 0 }),
            (2, 0x36) => std::array::from_fn(|l| s[(a[l] % 16) as usize]),
            (2, 0x40) => each(&|x, y| x.wrapping_mul(y)),
            (2, 0x86) => each(&|x, y| ((x as u64 * y as u64) >> 32) as u32),
            (2, 0x84) => each(&|x, n| (f32::from_bits(x) * 2f32.powi(n as i32)).to_bits()),
            (3, 0x52) if w == 0 => {
                std::array::from_fn(|l| round(f32::from_bits(s[l]), imm).to_bits())
            }
            // The card's own conversion: what is out of range goes to its end,
            // and what is no number to zero.
            (3, 0xcb) => std::array::from_fn(|l| round(f32::from_bits(s[l]), imm) as i32 as u32),
            (3, 0xe6) => std::array::from_fn(|l| {
                let x = float(1, &s, l % 8);
                let x = if imm == 3 { x.trunc() } else { x.round_ties_even() };
                if l < 8 { x as i32 as u32 } else { seed(l as u32) }
            }),
            (3, 0x03) => std::array::from_fn(|l| {
                let n = l + imm as usize;
                if n < 16 { s[n] } else { a[n - 16] }
            }),
            (3, 0x07) => std::array::from_fn(|l| s[4 * ((imm >> (2 * (l / 4))) & 3) as usize + l % 4]),
            _ => panic!("instruction {map} {op:02x}"),
        };
        let qwords = w == 1 || (map, op) == (1, 0x5a);
        for l in 0..16 {
            if k == 0 || (self.k[k] >> (if qwords { l / 2 } else { l })) & 1 == 1 {
                self.z[dest][l] = new[l];
            }
        }
        end
    }
}

fn lanes(b: &[u8]) -> Lanes {
    std::array::from_fn(|l| u32::from_le_bytes(b[4 * l..4 * l + 4].try_into().unwrap()))
}

/// The bytes of an element that a load converts.
fn element_size(conv: u8) -> usize {
    if conv == 4 || conv == 5 { 1 } else { 2 }
}

/// What a load makes of an element: a float of a float16, a dword of a byte or
/// a word, unsigned or signed.
fn converted(conv: u8, b: &[u8]) -> u32 {
    match conv {
        3 => f16_to_f32(u16::from_le_bytes([b[0], b[1]])),
        4 => b[0] as u32,
        5 => b[0] as i8 as i32 as u32,
        6 => u16::from_le_bytes([b[0], b[1]]) as u32,
        7 => i16::from_le_bytes([b[0], b[1]]) as i32 as u32,
        c => panic!("conversion {c}"),
    }
}

/// A float rounded to a whole number: to the nearest, down, up, or to zero.
fn round(x: f32, mode: u8) -> f32 {
    match mode {
        0 => x.round_ties_even(),
        1 => x.floor(),
        2 => x.ceil(),
        _ => x.trunc(),
    }
}

fn float(w: u8, z: &Lanes, l: usize) -> f64 {
    if w == 0 {
        f32::from_bits(z[l]) as f64
    } else {
        f64::from_bits(z[2 * l] as u64 | (z[2 * l + 1] as u64) << 32)
    }
}

/// Whether one of the 32 predicates of AVX-512 holds of element `l`.
fn fulfils(pred: u8, w: u8, a: &Lanes, b: &Lanes, l: usize) -> bool {
    let (x, y) = (float(w, a, l), float(w, b, l));
    let unordered = x.is_nan() || y.is_nan();
    match pred % 16 {
        0 => x == y,
        1 => x < y,
        2 => x <= y,
        3 => unordered,
        4 => x != y,
        5 => unordered || x >= y,
        6 => unordered || x > y,
        7 => !unordered,
        8 => unordered || x == y,
        9 => unordered || x < y,
        10 => unordered || x <= y,
        11 => false,
        12 => !unordered && x != y,
        13 => x >= y,
        14 => x > y,
        _ => true,
    }
}

fn integer_holds(pred: u8, o: std::cmp::Ordering) -> bool {
    match pred {
        0 => o.is_eq(),
        1 => o.is_lt(),
        2 => o.is_le(),
        3 => false,
        4 => o.is_ne(),
        5 => o.is_ge(),
        6 => o.is_gt(),
        _ => true,
    }
}

/// The fields of an instruction between registers.
#[derive(Clone, Copy)]
struct Evex {
    map: u8,
    pp: u8,
    w: u8,
    op: u8,
    reg: u8,
    vvvv: u8,
    rm: u8,
    ll: u8,
    aaa: u8,
    z: bool,
}

impl Evex {
    fn bytes(self, imm: Option<u8>) -> Vec<u8> {
        let inv = |x: u8, n: u8| (!x >> n) & 1;
        let p0 = inv(self.reg, 3) << 7 | inv(self.rm, 4) << 6 | inv(self.rm, 3) << 5
            | inv(self.reg, 4) << 4 | self.map;
        let p1 = self.w << 7 | (!self.vvvv & 0xf) << 3 | 4 | self.pp;
        let p2 = (self.z as u8) << 7 | self.ll << 5 | inv(self.vvvv, 4) << 3 | self.aaa;
        let modrm = 0xc0 | (self.reg & 7) << 3 | self.rm & 7;
        let mut b = vec![0x62, p0, p1, p2, self.op, modrm];
        b.extend(imm);
        b
    }

    /// With the memory operand `[rdx + disp]` for its second source, perhaps
    /// broadcast.
    fn from_memory(self, disp: i32, broadcast: bool, imm: Option<u8>) -> Vec<u8> {
        let mut b = self.bytes(None);
        b[1] |= 0x60;
        b[3] |= (broadcast as u8) << 4;
        b[5] = 0x82 | (self.reg & 7) << 3;
        b.extend(disp.to_le_bytes());
        b.extend(imm);
        b
    }

    /// The same with `[rax + disp]`, or `[rcx + disp]`.
    fn from_base(self, base: u8, disp: i32) -> Vec<u8> {
        let mut b = self.from_memory(disp, false, None);
        b[5] = b[5] & 0xf8 | base;
        b
    }

    /// The three lengths, unmasked, merging and zeroing.
    fn forms(self) -> Vec<Evex> {
        let mut v = Vec::new();
        for ll in 0..3 {
            v.push(Evex { ll, ..self });
            v.push(Evex { ll, aaa: 1, ..self });
            v.push(Evex { ll, aaa: 2, z: true, ..self });
        }
        v
    }

    /// What AVX-512 leaves in a destination that held `old`.
    fn written(self, k: &[u16; 8], old: Lanes, new: Lanes) -> Lanes {
        std::array::from_fn(|l| {
            let e = if self.w == 0 { l } else { l / 2 };
            if l >= [4, 8, 16][self.ll as usize] {
                0
            } else if self.aaa == 0 || (k[self.aaa as usize] >> e) & 1 == 1 {
                new[l]
            } else if self.z {
                0
            } else {
                old[l]
            }
        })
    }
}

/// Runs an instruction and holds it to `new`, the lanes it computes: the
/// destination is written as AVX-512 writes it, and nothing else changes.
fn holds(e: Evex, imm: Option<u8>, dest: u8, new: impl Fn(&Machine) -> Lanes) {
    holds_from(Machine::new(), e, e.bytes(imm), dest, new)
}

/// The state after the instruction in `bytes`.
fn after(before: &Machine, bytes: &[u8]) -> Machine {
    let mut m = before.clone();
    match rewrite_at(bytes, 0x1000, &TG).expect("whole").unwrap_or_else(|u| panic!("{}", u.message())) {
        Rewrite::Thunk(t) => m.run(&t),
        Rewrite::InPlace(seq) => m.run(&Thunk { seq, ..Thunk::default() }),
    }
    m
}

fn holds_from(
    before: Machine,
    e: Evex,
    bytes: Vec<u8>,
    dest: u8,
    new: impl Fn(&Machine) -> Lanes,
) {
    let m = after(&before, &bytes);
    let d = dest as usize;
    let want = e.written(&before.k, before.z[d], new(&before));
    assert_eq!(m.z[d], want, "{bytes:02x?}");
    let mut rest = before.clone();
    rest.z[d] = want;
    rest.mem = m.mem.clone();
    assert_eq!(m, rest, "{bytes:02x?} changes something else");
}

fn qword(z: &Lanes, l: usize) -> u64 {
    z[l / 2 * 2] as u64 | (z[l / 2 * 2 + 1] as u64) << 32
}

fn half_of(q: u64, l: usize) -> u32 {
    (q >> (32 * (l % 2))) as u32
}

const INT: Evex =
    Evex { map: 1, pp: 1, w: 0, op: 0, reg: 3, vvvv: 17, rm: 9, ll: 2, aaa: 0, z: false };

#[test]
fn every_truth_table_comes_out() {
    for imm in 0..=255u8 {
        let e = Evex { map: 3, op: 0x25, ..INT };
        let table = |m: &Machine| -> Lanes {
            std::array::from_fn(|l| {
                (0..32).fold(0, |acc, b| {
                    let bit = |r: usize| (m.z[r][l] >> b) & 1;
                    let at = bit(3) << 2 | bit(17) << 1 | bit(9);
                    acc | ((imm as u32 >> at) & 1) << b
                })
            })
        };
        holds(e, Some(imm), 3, table);
        holds(Evex { ll: 1, aaa: 1, ..e }, Some(imm), 3, table);
    }
}

#[test]
fn qword_shifts_carry_across_the_dwords() {
    for imm in [0u8, 1, 31, 32, 33, 63, 64, 200] {
        for (op, ext) in [(0x73, 2u8), (0x73, 6), (0x72, 4)] {
            for e in (Evex { w: 1, op, reg: ext, vvvv: 20, ..INT }).forms() {
                holds(e, Some(imm), 20, |m| {
                    std::array::from_fn(|l| {
                        let q = qword(&m.z[9], l);
                        let r = match ext {
                            2 if imm > 63 => 0,
                            2 => q >> imm,
                            6 if imm > 63 => 0,
                            6 => q << imm,
                            _ => ((q as i64) >> imm.min(63)) as u64,
                        };
                        half_of(r, l)
                    })
                });
            }
        }
    }
}

#[test]
fn magnitudes_and_products() {
    for e in (Evex { map: 2, op: 0x1e, vvvv: 0, ..INT }).forms() {
        holds(e, None, 3, |m| m.z[9].map(|x| (x as i32).wrapping_abs() as u32));
    }
    for e in (Evex { w: 1, op: 0xf4, ..INT }).forms() {
        holds(e, None, 3, |m| {
            std::array::from_fn(|l| {
                let (a, b) = (m.z[17][l / 2 * 2] as u64, m.z[9][l / 2 * 2] as u64);
                half_of(a * b, l)
            })
        });
    }
}

#[test]
fn blocks_are_interleaved() {
    for (op, high) in [(0x62, false), (0x6a, true)] {
        for e in (Evex { op, ..INT }).forms() {
            holds(e, None, 3, |m| {
                std::array::from_fn(|l| {
                    let from = l / 4 * 4 + l % 4 / 2 + 2 * high as usize;
                    if l % 2 == 0 { m.z[17][from] } else { m.z[9][from] }
                })
            });
        }
    }
    for (op, high) in [(0x6c, false), (0x6d, true)] {
        for e in (Evex { w: 1, op, ..INT }).forms() {
            holds(e, None, 3, |m| {
                std::array::from_fn(|l| {
                    let from = l / 4 * 4 + l % 2 + 2 * high as usize;
                    if l % 4 < 2 { m.z[17][from] } else { m.z[9][from] }
                })
            });
        }
    }
}

#[test]
fn blocks_are_taken_out_and_put_in() {
    for imm in 0..4u8 {
        // vextracti32x4: the destination is in ModRM.rm, and 128 bits long.
        let e = Evex { map: 3, op: 0x39, vvvv: 0, ..INT };
        let bytes = e.bytes(Some(imm));
        let before = Machine::new();
        let mut m = before.clone();
        match rewrite_at(&bytes, 0x1000, &TG).unwrap().unwrap() {
            Rewrite::Thunk(t) => m.run(&t),
            other => panic!("{other:?}"),
        }
        for l in 0..16 {
            let want = if l < 4 { before.z[3][4 * imm as usize + l] } else { 0 };
            assert_eq!(m.z[9][l], want);
        }
        let e = Evex { map: 3, op: 0x38, ..INT };
        holds(e, Some(imm), 3, |m| {
            std::array::from_fn(|l| {
                if l / 4 == imm as usize { m.z[9][l % 4] } else { m.z[17][l] }
            })
        });
    }
    for imm in 0..2u8 {
        let e = Evex { map: 3, w: 1, op: 0x3a, ..INT };
        holds(e, Some(imm), 3, |m| {
            std::array::from_fn(|l| {
                if l / 8 == imm as usize { m.z[9][l % 8] } else { m.z[17][l] }
            })
        });
    }
}

#[test]
fn a_block_of_half_a_vector_is_named_by_one_bit() {
    for imm in 0..=255u8 {
        // vextracti32x4 xmm9{k}, ymm3, imm
        for aaa in 0..2 {
            let e = Evex { map: 3, op: 0x39, vvvv: 0, ll: 1, aaa, ..INT };
            let out = Evex { ll: 0, ..e };
            holds_from(Machine::new(), out, e.bytes(Some(imm)), 9, |m| {
                std::array::from_fn(|l| m.z[3][4 * (imm as usize % 2) + l % 4])
            });
            // vinserti32x4 ymm3{k}, ymm17, xmm9, imm
            holds(Evex { map: 3, op: 0x38, ll: 1, aaa, ..INT }, Some(imm), 3, |m| {
                std::array::from_fn(|l| {
                    if l / 4 == imm as usize % 2 { m.z[9][l % 4] } else { m.z[17][l] }
                })
            });
        }
    }
}

#[test]
fn a_scalar_is_broadcast() {
    for e in (Evex { map: 2, op: 0x18, vvvv: 0, ..INT }).forms() {
        holds(e, None, 3, |m| [m.z[9][0]; 16]);
    }
}

#[test]
fn lanes_are_aligned_and_permuted() {
    for imm in 0..=255u8 {
        for e in (Evex { map: 3, w: 1, op: 0x03, ..INT }).forms() {
            let dwords = [4, 8, 16][e.ll as usize];
            holds(e, Some(imm), 3, |m| {
                std::array::from_fn(|l| {
                    let n = (l % dwords) + 2 * (imm as usize % (dwords / 2));
                    if n < dwords { m.z[9][n] } else { m.z[17][n - dwords] }
                })
            });
        }
    }
    for imm in [0x00u8, 0x1b, 0xe4, 0x93, 0xff] {
        let by_immediate = Evex { map: 3, w: 1, op: 0x00, vvvv: 0, ..INT };
        for e in by_immediate.forms().into_iter().filter(|e| e.ll > 0) {
            holds(e, Some(imm), 3, |m| {
                std::array::from_fn(|l| {
                    let q = (imm >> (2 * (l / 2 % 4))) & 3;
                    m.z[9][l / 8 * 8 + 2 * q as usize + l % 2]
                })
            });
        }
        for e in (Evex { map: 3, w: 1, op: 0x05, vvvv: 0, ..INT }).forms() {
            holds(e, Some(imm), 3, |m| {
                std::array::from_fn(|l| {
                    let q = (imm >> (l / 2)) & 1;
                    m.z[9][l / 4 * 4 + 2 * q as usize + l % 2]
                })
            });
        }
    }
}

#[test]
fn blocks_are_shifted_by_whole_dwords() {
    for imm in [0u8, 4, 8, 12, 16, 80] {
        for (ext, left) in [(3u8, false), (7, true)] {
            for ll in 0..3 {
                holds(Evex { op: 0x73, reg: ext, vvvv: 20, ll, ..INT }, Some(imm), 20, |m| {
                    std::array::from_fn(|l| {
                        let n = (imm / 4) as usize;
                        let (at, base) = (l % 4, l / 4 * 4);
                        if left {
                            if at >= n { m.z[9][base + at - n] } else { 0 }
                        } else if at + n < 4 {
                            m.z[9][base + at + n]
                        } else {
                            0
                        }
                    })
                });
            }
        }
    }
}

#[test]
fn a_scalar_move_takes_lane_zero() {
    for aaa in [0u8, 1, 2, 4] {
        // vmovss %xmm9, %xmm17, %xmm3{k}
        let e = Evex { pp: 2, op: 0x10, ll: 0, aaa, ..INT };
        let bytes = e.bytes(None);
        let before = Machine::new();
        let mut m = before.clone();
        match rewrite_at(&bytes, 0x1000, &TG).unwrap().unwrap() {
            Rewrite::Thunk(t) => m.run(&t),
            other => panic!("{other:?}"),
        }
        let zero = if aaa == 0 || before.k[aaa as usize] & 1 == 1 {
            before.z[9][0]
        } else {
            before.z[3][0]
        };
        assert_eq!(m.z[3][..4], [zero, before.z[17][1], before.z[17][2], before.z[17][3]]);
        assert_eq!(m.z[3][4..], [0; 12]);
    }
}

#[test]
fn ordinary_arithmetic_is_written_as_avx512_writes_it() {
    for e in (Evex { pp: 0, op: 0x58, ..INT }).forms() {
        holds(e, None, 3, |m| {
            std::array::from_fn(|l| {
                (f32::from_bits(m.z[17][l]) + f32::from_bits(m.z[9][l])).to_bits()
            })
        });
    }
    for e in (Evex { op: 0xfe, ..INT }).forms() {
        holds(e, None, 3, |m| std::array::from_fn(|l| m.z[17][l].wrapping_add(m.z[9][l])));
    }
    for e in (Evex { w: 1, op: 0xef, ..INT }).forms() {
        holds(e, None, 3, |m| std::array::from_fn(|l| m.z[17][l] ^ m.z[9][l]));
    }
    // The destination among the sources.
    for e in (Evex { op: 0xfa, reg: 9, rm: 9, ..INT }).forms() {
        holds(e, None, 9, |m| std::array::from_fn(|l| m.z[17][l].wrapping_sub(m.z[9][l])));
    }
}

/// Runs a compare into k3 and holds every bit to `f`.
fn marks(before: Machine, e: Evex, bytes: Vec<u8>, f: impl Fn(&Machine, usize) -> bool) {
    let m = after(&before, &bytes);
    let n = [4, 8, 16][e.ll as usize] >> e.w;
    let want = (0..n)
        .filter(|&l| (e.aaa == 0 || (before.k[e.aaa as usize] >> l) & 1 == 1) && f(&before, l))
        .fold(0u16, |m, l| m | 1 << l);
    assert_eq!(m.k[3], want, "{bytes:02x?}");
    let mut rest = before.clone();
    rest.k[3] = m.k[3];
    rest.mem = m.mem.clone();
    assert_eq!(m, rest, "{bytes:02x?} changes something else");
}

#[test]
fn every_predicate_holds_where_it_should() {
    for pred in 0..32u8 {
        for w in 0..2 {
            for ll in 0..3 {
                for aaa in 0..3 {
                    let e = Evex { pp: w, w, op: 0xc2, ll, aaa, ..INT };
                    let f = |m: &Machine, l: usize| fulfils(pred, w, &m.z[17], &m.z[9], l);
                    marks(Machine::with_numbers(), e, e.bytes(Some(pred)), f);
                }
            }
        }
    }
    for ll in 0..3 {
        let e = Evex { pp: 0, op: 0xc2, ll, aaa: 1, ..INT };
        let a = RDX + 20;
        marks(Machine::with_numbers(), e, e.from_memory(20, false, Some(30)), |m, l| {
            fulfils(30, 0, &m.z[17], &m.dwords(a), l)
        });
    }
}

#[test]
fn whole_numbers_compare_signed_and_unsigned() {
    for pred in 0..8u8 {
        for ll in 0..3 {
            for aaa in 0..3 {
                let e = Evex { map: 3, op: 0x1f, ll, aaa, ..INT };
                marks(Machine::new(), e, e.bytes(Some(pred)), |m, l| {
                    integer_holds(pred, (m.z[17][l] as i32).cmp(&(m.z[9][l] as i32)))
                });
                let e = Evex { op: 0x1e, ..e };
                marks(Machine::new(), e, e.bytes(Some(pred)), |m, l| {
                    integer_holds(pred, m.z[17][l].cmp(&m.z[9][l]))
                });
            }
        }
    }
}

#[test]
fn a_blend_leaves_the_first_source_where_the_mask_has_nothing() {
    for e in (Evex { map: 2, op: 0x64, ..INT }).forms() {
        let before = Machine::new();
        let m = after(&before, &e.bytes(None));
        assert_eq!(m.z[3], e.written(&before.k, before.z[17], before.z[9]));
    }
}

#[test]
fn indices_pick_from_two_tables() {
    for (op, by_dest) in [(0x76u8, true), (0x77, true), (0x7e, false), (0x7f, false)] {
        for w in 0..2u8 {
            for e in (Evex { map: 2, w, op, ..INT }).forms() {
                let n = [4, 8, 16][e.ll as usize] >> w;
                holds(e, None, 3, |m| {
                    let (index, first) = if by_dest { (3, 17) } else { (17, 3) };
                    std::array::from_fn(|l| {
                        let tables = [m.z[first], m.z[9]];
                        if w == 0 {
                            let x = m.z[index][l] as usize;
                            tables[x / n % 2][x % n]
                        } else {
                            let x = m.z[index][l / 2 * 2] as usize;
                            tables[x / n % 2][x % n * 2 + l % 2]
                        }
                    })
                });
            }
        }
    }
}

#[test]
fn indices_pick_from_a_vector() {
    for op in [0x16u8, 0x36] {
        for (ll, n) in [(1u8, 8), (2, 16)] {
            for e in [0u8, 1].map(|aaa| Evex { map: 2, op, ll, aaa, ..INT }) {
                holds(e, None, 3, |m| {
                    std::array::from_fn(|l| m.z[9][m.z[17][l] as usize % n])
                });
            }
        }
        for e in (Evex { map: 2, w: 1, op, ..INT }).forms().into_iter().filter(|e| e.ll > 0) {
            let n = [2, 4, 8][e.ll as usize];
            holds(e, None, 3, |m| {
                std::array::from_fn(|l| m.z[9][m.z[17][l / 2 * 2] as usize % n * 2 + l % 2])
            });
        }
    }
    for e in (Evex { map: 2, op: 0x0c, ..INT }).forms() {
        holds(e, None, 3, |m| {
            std::array::from_fn(|l| m.z[17][l / 4 * 4 + m.z[9][l] as usize % 4])
        });
    }
    for e in (Evex { map: 2, w: 1, op: 0x0d, ..INT }).forms() {
        holds(e, None, 3, |m| {
            std::array::from_fn(|l| {
                m.z[17][l / 4 * 4 + m.z[9][l / 2 * 2] as usize / 2 % 2 * 2 + l % 2]
            })
        });
    }
}

/// The first source where it is the greater or the lesser, else the second.
fn choice(is_max: bool, w: u8, a: &Lanes, b: &Lanes) -> Lanes {
    std::array::from_fn(|l| {
        let e = if w == 0 { l } else { l / 2 };
        if fulfils(if is_max { 14 } else { 1 }, w, a, b, e) { a[l] } else { b[l] }
    })
}

#[test]
fn a_minimum_is_the_second_source_where_nothing_is_less() {
    for (op, is_max) in [(0x5fu8, true), (0x5d, false)] {
        for w in 0..2u8 {
            for e in (Evex { pp: w, w, op, ..INT }).forms() {
                holds_from(Machine::with_numbers(), e, e.bytes(None), 3, |m| {
                    choice(is_max, w, &m.z[17], &m.z[9])
                });
            }
        }
        // The scalar forms take lane 0, the rest of the first source, zero.
        for l in 0..16 {
            let mut before = Machine::with_numbers();
            before.z[17].rotate_left(l);
            before.z[9].rotate_left(l);
            let e = Evex { pp: 2, op, ll: 0, ..INT };
            let m = after(&before, &e.bytes(None));
            let lane = choice(is_max, 0, &before.z[17], &before.z[9])[0];
            assert_eq!(m.z[3][0], lane);
            assert_eq!(m.z[3][1..4], before.z[17][1..4]);
            assert_eq!(m.z[3][4..], [0; 12]);
        }
    }
}

#[test]
fn every_dword_is_shifted_by_the_count_in_a_register_or_in_memory() {
    for count in [0u64, 1, 31, 32, 33, 200, 1 << 32, (1 << 32) + 1, u64::MAX] {
        let n = count.min(200) as u32;
        for op in [0xf2u8, 0xd2, 0xe2] {
            let shift = move |x: u32| match op {
                0xf2 => x.checked_shl(n).unwrap_or(0),
                0xd2 => x.checked_shr(n).unwrap_or(0),
                _ => ((x as i32) >> n.min(31)) as u32,
            };
            for e in (Evex { op, ..INT }).forms() {
                let mut before = Machine::new();
                let halves = [count as u32, (count >> 32) as u32];
                before.z[9][..2].copy_from_slice(&halves);
                before.data.insert(RDX + 8, halves[0]);
                before.data.insert(RDX + 12, halves[1]);
                holds_from(before.clone(), e, e.bytes(None), 3, |m| m.z[17].map(shift));
                holds_from(before, e, e.from_memory(8, false, None), 3, |m| m.z[17].map(shift));
            }
        }
    }
}

#[test]
fn an_unaligned_load_gives_back_what_an_unaligned_store_wrote() {
    for disp in [0i32, 4, 28, 60, -36] {
        for ll in 0..3u8 {
            let n = [4, 8, 16][ll as usize];
            let a = RDX.wrapping_add_signed(disp as i64);
            let before = Machine::new();
            // vmovups into memory, and from there into another register.
            let store = Evex { pp: 0, op: 0x11, vvvv: 0, ll, ..INT };
            let m = after(&before, &store.from_memory(disp, false, None));
            let mut rest = before.clone();
            rest.mem = m.mem.clone();
            for l in 0..n {
                rest.data.insert(a + 4 * l as u64, before.z[3][l]);
            }
            assert_eq!(m, rest);
            let load = Evex { op: 0x10, reg: 25, ..store };
            holds_from(m, load, load.from_memory(disp, false, None), 25, |_| before.z[3]);
        }
    }
}

#[test]
fn a_block_goes_to_memory_and_a_narrow_store_writes_its_length() {
    let before = Machine::new();
    let at = RDX + 20;
    let wrote = |bytes: Vec<u8>, lanes: &[u32]| {
        let m = after(&before, &bytes);
        let mut rest = before.clone();
        rest.mem = m.mem.clone();
        for (l, v) in lanes.iter().enumerate() {
            rest.data.insert(at + 4 * l as u64, *v);
        }
        assert_eq!(m, rest, "{bytes:02x?}");
    };
    for imm in 0..8u8 {
        // vextracti32x4 [rdx+20], zmm3 or ymm3, imm, and vextracti64x4
        let e = Evex { map: 3, op: 0x39, vvvv: 0, ..INT };
        let b = 4 * (imm as usize % 4);
        wrote(e.from_memory(20, false, Some(imm)), &before.z[3][b..b + 4]);
        let b = 4 * (imm as usize % 2);
        wrote(Evex { ll: 1, ..e }.from_memory(20, false, Some(imm)), &before.z[3][b..b + 4]);
        let b = 8 * (imm as usize % 2);
        let half = Evex { w: 1, op: 0x3b, ..e };
        wrote(half.from_memory(20, false, Some(imm)), &before.z[3][b..b + 8]);
    }
    // vmovaps [rdx+20], xmm3 and ymm3
    for (ll, n) in [(0u8, 4), (1, 8)] {
        let e = Evex { pp: 0, op: 0x29, vvvv: 0, ll, ..INT };
        wrote(e.from_memory(20, false, None), &before.z[3][..n]);
    }
}

#[test]
fn a_masked_unaligned_load_leaves_every_element_in_its_place() {
    for disp in [0i32, 4, 28, 60, -36] {
        let a = RDX.wrapping_add_signed(disp as i64);
        for (pp, w, op) in [(0u8, 0u8, 0x10u8), (1, 1, 0x10), (2, 0, 0x6f), (2, 1, 0x6f)] {
            for e in (Evex { pp, w, op, vvvv: 0, ..INT }).forms() {
                let bytes = e.from_memory(disp, false, None);
                holds_from(Machine::new(), e, bytes, 3, |m| m.dwords(a));
            }
        }
    }
}

#[test]
fn an_operand_addressed_by_a_register_the_sequence_uses_is_found() {
    for base in 0..2u8 {
        for e in (Evex { op: 0xfe, ..INT }).forms() {
            let mut before = Machine::new();
            before.rax = RDX + 8;
            before.rcx = RDX + 12;
            let at = [before.rax, before.rcx][base as usize] + 20;
            holds_from(before, e, e.from_base(base, 20), 3, |m| {
                let b = m.dwords(at);
                std::array::from_fn(|l| m.z[17][l].wrapping_add(b[l]))
            });
        }
    }
}

/// What the elements of `size` bytes that a compare looks at are.
fn elements(z: &Lanes, ll: u8, size: usize) -> Vec<Vec<u8>> {
    let bytes: Vec<u8> = z.iter().flat_map(|v| v.to_le_bytes()).collect();
    bytes[..[16, 32, 64][ll as usize]].chunks(size).map(|c| c.to_vec()).collect()
}

#[test]
fn a_byte_compare_leaves_nothing_exactly_when_it_holds_of_nothing() {
    let mut cases = vec![Machine::new()];
    // Everything equal, everything different, and one byte of either kind.
    let mut m = Machine::new();
    m.z[9] = m.z[17];
    cases.push(m.clone());
    for b in [0usize, 1, 6, 17, 31, 40, 63] {
        let mut one = m.clone();
        one.z[9][b / 4] ^= 0x80 << (8 * (b % 4));
        cases.push(one);
    }
    m.z[9] = m.z[17].map(|x| !x);
    cases.push(m.clone());
    for b in [0usize, 1, 6, 17, 31, 40, 63] {
        let mut one = m.clone();
        one.z[9][b / 4] ^= 0xff << (8 * (b % 4));
        cases.push(one);
        let mut near = m.clone();
        near.z[9][b / 4] ^= 0xfe << (8 * (b % 4));
        cases.push(near);
    }
    for before in cases {
        for ll in 0..3u8 {
            for (size, equal, e, imm) in [
                (1, true, Evex { op: 0x74, ll, ..INT }, None),
                (2, true, Evex { op: 0x75, ll, ..INT }, None),
                (1, true, Evex { map: 3, op: 0x3f, ll, ..INT }, Some(0)),
                (1, true, Evex { map: 3, op: 0x3e, ll, ..INT }, Some(0)),
                (2, true, Evex { map: 3, w: 1, op: 0x3f, ll, ..INT }, Some(0)),
                (2, true, Evex { map: 3, w: 1, op: 0x3e, ll, ..INT }, Some(0)),
                (1, false, Evex { map: 3, op: 0x3f, ll, ..INT }, Some(4)),
                (2, false, Evex { map: 3, w: 1, op: 0x3e, ll, ..INT }, Some(4)),
            ] {
                let bytes = e.bytes(imm);
                let found = rewrite_bytecmp_checked(&decode(&bytes, 0), &bytes, &TG);
                let mut m = before.clone();
                match found.expect("whole").unwrap() {
                    Rewrite::Thunk(t) => m.run(&t),
                    Rewrite::InPlace(seq) => m.run(&Thunk { seq, ..Thunk::default() }),
                }
                let (a, b) = (elements(&before.z[17], ll, size), elements(&before.z[9], ll, size));
                let any = a.iter().zip(&b).any(|(x, y)| (x == y) == equal);
                assert_eq!(m.k[3] != 0, any, "{bytes:02x?}");
                let mut rest = before.clone();
                rest.k[3] = m.k[3];
                rest.mem = m.mem.clone();
                assert_eq!(m, rest, "{bytes:02x?} changes something else");
            }
        }
    }
}

#[test]
fn byte_masks_are_eight_bits() {
    let before = Machine::new();
    // The source masks k1 and k7, the destination k3.
    let (a, b) = (before.k[1] & 0xff, before.k[7] & 0xff);
    for (bytes, want) in [
        // knotb k3, k7
        (vec![0xc5u8, 0xf9, 0x44, 0xdf], !b & 0xff),
        // kandb k3, k1, k7
        (vec![0xc5, 0xf5, 0x41, 0xdf], a & b),
        // korb k3, k1, k7
        (vec![0xc5, 0xf5, 0x45, 0xdf], a | b),
        // kandnb k3, k1, k7
        (vec![0xc5, 0xf5, 0x42, 0xdf], !a & b),
        // kmovb k3, k7
        (vec![0xc5, 0xf9, 0x90, 0xdf], b),
    ] {
        let m = after(&before, &bytes);
        assert_eq!(m.k[3], want, "{bytes:02x?}");
        let mut rest = before.clone();
        rest.k[3] = want;
        rest.mem = m.mem.clone();
        assert_eq!(m, rest, "{bytes:02x?} changes something else");
    }
}

#[test]
fn a_compare_may_write_the_mask_it_runs_under() {
    for pred in 0..32u8 {
        for ll in 0..3 {
            // vcmpps k3{k3}, zmm17, zmm9, pred
            let e = Evex { pp: 0, op: 0xc2, ll, aaa: 3, ..INT };
            marks(Machine::with_numbers(), e, e.bytes(Some(pred)), |m, l| {
                fulfils(pred, 0, &m.z[17], &m.z[9], l)
            });
        }
    }
}

#[test]
fn a_memory_operand_is_read_where_it_stands() {
    let at = RDX + 20;
    for e in (Evex { op: 0xfe, ..INT }).forms() {
        holds_from(Machine::new(), e, e.from_memory(20, false, None), 3, |m| {
            let b = m.dwords(at);
            std::array::from_fn(|l| m.z[17][l].wrapping_add(b[l]))
        });
        // One element for all.
        holds_from(Machine::new(), e, e.from_memory(20, true, None), 3, |m| {
            m.z[17].map(|x| x.wrapping_add(m.data[&at]))
        });
    }
    for e in (Evex { w: 1, op: 0xf4, ..INT }).forms() {
        holds_from(Machine::new(), e, e.from_memory(20, false, None), 3, |m| {
            let b = m.dwords(at);
            std::array::from_fn(|l| half_of(m.z[17][l / 2 * 2] as u64 * b[l / 2 * 2] as u64, l))
        });
    }
    for e in (Evex { map: 2, op: 0x1e, vvvv: 0, ..INT }).forms() {
        holds_from(Machine::new(), e, e.from_memory(20, false, None), 3, |m| {
            m.dwords(at).map(|x| (x as i32).wrapping_abs() as u32)
        });
    }
    for e in (Evex { map: 2, op: 0x36, ..INT }).forms().into_iter().filter(|e| e.ll == 2) {
        holds_from(Machine::new(), e, e.from_memory(20, false, None), 3, |m| {
            let b = m.dwords(at);
            std::array::from_fn(|l| b[m.z[17][l] as usize % 16])
        });
    }
    for imm in [1u8, 0x96, 0xca] {
        let e = Evex { map: 3, op: 0x25, ll: 1, aaa: 1, ..INT };
        holds_from(Machine::new(), e, e.from_memory(20, false, Some(imm)), 3, |m| {
            let c = m.dwords(at);
            std::array::from_fn(|l| {
                (0..32).fold(0, |acc, b| {
                    let x = (m.z[3][l] >> b & 1) << 2 | (m.z[17][l] >> b & 1) << 1 | c[l] >> b & 1;
                    acc | ((imm as u32 >> x) & 1) << b
                })
            })
        });
    }
}

#[test]
fn scalars_come_from_memory_and_go_there() {
    let before = Machine::new();
    let at = RDX + 20;
    for aaa in [0u8, 1, 2, 4] {
        // vmovss (%rdx), %xmm3{k}
        let e = Evex { pp: 2, op: 0x10, vvvv: 0, ll: 0, aaa, ..INT };
        let m = after(&before, &e.from_memory(20, false, None));
        let taken = aaa == 0 || before.k[aaa as usize] & 1 == 1;
        assert_eq!(m.z[3][0], if taken { before.data[&at] } else { before.z[3][0] });
        assert_eq!(m.z[3][1..], [0; 15]);
    }
    // vaddss (%rdx), %xmm17, %xmm3
    let e = Evex { pp: 2, op: 0x58, ll: 0, ..INT };
    let m = after(&before, &e.from_memory(20, false, None));
    let sum = f32::from_bits(before.z[17][0]) + f32::from_bits(before.data[&at]);
    assert_eq!(m.z[3][0], sum.to_bits());
    assert_eq!(m.z[3][1..4], before.z[17][1..4]);
    // vmovd (%rdx), %xmm3 and back
    let e = Evex { op: 0x6e, vvvv: 0, ll: 0, ..INT };
    let m = after(&before, &e.from_memory(20, false, None));
    assert_eq!((m.z[3][0], &m.z[3][1..]), (before.data[&at], &[0; 15][..]));
    let e = Evex { op: 0x7e, vvvv: 0, ll: 0, ..INT };
    let m = after(&before, &e.from_memory(20, false, None));
    let mut rest = before.clone();
    rest.mem = m.mem.clone();
    rest.data.insert(at, before.z[3][0]);
    assert_eq!(m, rest);
}

#[test]
fn bytes_and_words_are_widened() {
    for (op, conv) in [(0x31u8, 4u8), (0x21, 5), (0x33, 6), (0x23, 7)] {
        let n = element_size(conv);
        for e in (Evex { map: 2, op, vvvv: 0, ..INT }).forms() {
            holds(e, None, 3, |m| {
                let b: Vec<u8> = m.z[9].iter().flat_map(|v| v.to_le_bytes()).collect();
                std::array::from_fn(|l| converted(conv, &b[n * l..n * l + n]))
            });
            // From memory, on a boundary of the elements alone.
            for disp in [0i32, 6, 26, -40] {
                let at = RDX.wrapping_add_signed((disp + (2 - n as i32)) as i64);
                let bytes = e.from_memory(disp + (2 - n as i32), false, None);
                holds_from(Machine::new(), e, bytes, 3, |m| {
                    std::array::from_fn(|l| {
                        let a = at + (n * l) as u64;
                        let b: Vec<u8> = (a..a + n as u64).map(|a| m.byte(a)).collect();
                        converted(conv, &b)
                    })
                });
            }
        }
    }
}

#[test]
fn float16s_are_read_and_written() {
    for e in (Evex { map: 2, op: 0x13, vvvv: 0, ..INT }).forms() {
        holds(e, None, 3, |m| {
            std::array::from_fn(|l| f16_to_f32((m.z[9][l / 2] >> (16 * (l % 2))) as u16))
        });
        holds_from(Machine::new(), e, e.from_memory(22, false, None), 3, |m| {
            std::array::from_fn(|l| {
                let a = RDX + 22 + 2 * l as u64;
                f16_to_f32(u16::from_le_bytes([m.byte(a), m.byte(a + 1)]))
            })
        });
    }
    for ll in [0u8, 1, 2] {
        // vcvtps2ph zmm3, ymm3 or xmm3, register 9
        let e = Evex { map: 3, op: 0x1d, vvvv: 0, ll, ..INT };
        let n = [2, 4, 8][ll as usize];
        let mut before = Machine::new();
        before.z[3] = std::array::from_fn(|l| (l as f32 * 1.37 - 4.0).to_bits());
        let m = after(&before, &e.bytes(Some(0)));
        for l in 0..16 {
            let half = |l: usize| f32_to_f16(before.z[3][l]) as u32;
            let want = if l < n { half(2 * l) | half(2 * l + 1) << 16 } else { 0 };
            assert_eq!(m.z[9][l], want);
        }
    }
}

#[test]
fn floats_become_integers_as_avx512_has_it() {
    let mut before = Machine::new();
    before.z[9] = [
        0.5f32, 1.5, -2.5, 2.7, -2.7, 2147483520.0, 2147483648.0, 3e9, -2147483648.0, -3e9,
        f32::INFINITY, f32::NEG_INFINITY, f32::NAN, 0.0, -0.0, 1e-40,
    ]
    .map(f32::to_bits);
    for (pp, mode) in [(1u8, 0u8), (2, 3)] {
        for e in (Evex { pp, op: 0x5b, vvvv: 0, ..INT }).forms() {
            holds_from(before.clone(), e, e.bytes(None), 3, |m| {
                m.z[9].map(|x| {
                    let f = round(f32::from_bits(x), mode) as f64;
                    if (-2147483648.0..2147483648.0).contains(&f) { f as i32 as u32 } else { 0x8000_0000 }
                })
            });
        }
    }
}

#[test]
fn floats_are_rounded_scaled_and_shortened() {
    let mut before = Machine::new();
    before.z[17] = std::array::from_fn(|l| (l as f32 * 0.75 - 5.0).to_bits());
    before.z[9] = std::array::from_fn(|l| (l as f32 * 0.6 - 3.9).to_bits());
    for mode in 0..4u8 {
        for e in (Evex { map: 3, op: 0x08, vvvv: 0, ..INT }).forms() {
            holds_from(before.clone(), e, e.bytes(Some(mode)), 3, |m| {
                m.z[9].map(|x| round(f32::from_bits(x), mode).to_bits())
            });
        }
    }
    for e in (Evex { map: 2, op: 0x2c, ..INT }).forms() {
        holds_from(before.clone(), e, e.bytes(None), 3, |m| {
            std::array::from_fn(|l| {
                let n = f32::from_bits(m.z[9][l]).floor() as i32;
                (f32::from_bits(m.z[17][l]) * 2f32.powi(n)).to_bits()
            })
        });
    }
    for l in 0..8 {
        let x = (l as f64 * 1.1 - 3.0).to_bits();
        before.z[9][2 * l] = x as u32;
        before.z[9][2 * l + 1] = (x >> 32) as u32;
    }
    for e in (Evex { w: 1, op: 0x5a, vvvv: 0, ..INT }).forms() {
        let n = [2, 4, 8][e.ll as usize];
        let out = Evex { ll: e.ll.saturating_sub(1), w: 0, ..e };
        let m = after(&before, &e.bytes(None));
        let new = std::array::from_fn(|l| {
            if l < n { (float(1, &before.z[9], l) as f32).to_bits() } else { 0 }
        });
        let mut want = out.written(&before.k, before.z[3], new);
        want[n..].fill(0);
        assert_eq!(m.z[3], want);
        assert_eq!((&m.k, m.rax, m.rcx), (&before.k, before.rax, before.rcx));
    }
}

#[test]
fn general_registers_are_moved() {
    let before = Machine::new();
    // vmovd %eax, %xmm3 and vmovq %rax, %xmm3
    for w in 0..2u8 {
        let e = Evex { w, op: 0x6e, vvvv: 0, rm: 0, ll: 0, ..INT };
        let m = after(&before, &e.bytes(None));
        let mut want = [0u32; 16];
        want[0] = before.rax as u32;
        if w == 1 {
            want[1] = (before.rax >> 32) as u32;
        }
        assert_eq!(m.z[3], want);
        assert_eq!((m.rax, m.rcx, m.k), (before.rax, before.rcx, before.k));
        // and back, %xmm3 to %eax or %rax
        let m = after(&before, &Evex { op: 0x7e, ..e }.bytes(None));
        let high = if w == 1 { (before.z[3][1] as u64) << 32 } else { 0 };
        assert_eq!(m.rax, before.z[3][0] as u64 | high);
        assert_eq!((&m.z, m.rcx, m.k), (&before.z, before.rcx, before.k));
    }
    // vmovq %xmm9, %xmm3
    let e = Evex { pp: 2, w: 1, op: 0x7e, vvvv: 0, ll: 0, ..INT };
    let m = after(&before, &e.bytes(None));
    assert_eq!((&m.z[3][..2], &m.z[3][2..]), (&before.z[9][..2], &[0; 14][..]));
}

#[test]
fn floats_are_widened_under_a_mask_of_doubles() {
    let mut before = Machine::new();
    let at = RDX + 20;
    for l in 0..16 {
        before.z[9][l] = (l as f32 * 1.7 - 9.3).to_bits();
        before.data.insert(at + 4 * l as u64, (l as f32 * -0.6 + 4.1).to_bits());
    }
    let wide = |x: u32, l: usize| half_of((f32::from_bits(x) as f64).to_bits(), l);
    // vcvtps2pd zmm3, ymm3 or xmm3, from register 9 or from memory
    for e in (Evex { pp: 0, op: 0x5a, vvvv: 0, ..INT }).forms() {
        let out = Evex { w: 1, ..e };
        holds_from(before.clone(), out, e.bytes(None), 3, |m| {
            std::array::from_fn(|l| wide(m.z[9][l / 2], l))
        });
        holds_from(before.clone(), out, e.from_memory(20, false, None), 3, |m| {
            let b = m.dwords(at);
            std::array::from_fn(|l| wide(b[l / 2], l))
        });
        holds_from(before.clone(), out, e.from_memory(20, true, None), 3, |m| {
            std::array::from_fn(|l| wide(m.data[&at], l))
        });
    }
}

#[test]
fn masks_are_moved() {
    let before = Machine::new();
    let at = RDX + 20;
    // Into k3, of a general register or of memory.
    for (bytes, want) in [
        // kmovd k3, eax and kmovb k3, eax
        (vec![0xc5u8, 0xfb, 0x92, 0xd8], before.rax as u16),
        (vec![0xc5, 0xf9, 0x92, 0xd8], before.rax as u16 & 0xff),
        // kmovq k3, rcx
        (vec![0xc4, 0xe1, 0xfb, 0x92, 0xd9], before.rcx as u16),
        // kmovw k3, eax, in its place
        (vec![0xc5, 0xf8, 0x92, 0xd8], before.rax as u16),
        // kmovd k3, k7
        (vec![0xc4, 0xe1, 0xf9, 0x90, 0xdf], before.k[7]),
        // kmovw, kmovd and kmovq k3, [rdx + 20]
        (vec![0xc5, 0xf8, 0x90, 0x5a, 0x14], before.data[&at] as u16),
        (vec![0xc4, 0xe1, 0xf9, 0x90, 0x5a, 0x14], before.data[&at] as u16),
        (vec![0xc4, 0xe1, 0xf8, 0x90, 0x5a, 0x14], before.data[&at] as u16),
        // kmovb k3, [rdx + 21]
        (vec![0xc5, 0xf9, 0x90, 0x5a, 0x15], (before.data[&at] >> 8) as u16 & 0xff),
    ] {
        let m = after(&before, &bytes);
        let mut rest = before.clone();
        rest.k[3] = want;
        rest.mem = m.mem.clone();
        assert_eq!(m, rest, "{bytes:02x?}");
    }
    // kmovd ecx, k7 and kmovq rcx, k7
    for bytes in [vec![0xc5u8, 0xfb, 0x93, 0xcf], vec![0xc4, 0xe1, 0xfb, 0x93, 0xcf]] {
        let mut want = before.clone();
        want.rcx = before.k[7] as u64;
        assert_eq!(after(&before, &bytes), want, "{bytes:02x?}");
    }
    // To memory, k7.
    let k7 = before.k[7] as u32;
    for (bytes, low, high) in [
        // kmovw [rdx + 20], k7
        (vec![0xc5u8, 0xf8, 0x91, 0x7a, 0x14], before.data[&at] & 0xffff_0000 | k7, None),
        // kmovb [rdx + 22], k7
        (
            vec![0xc5, 0xf9, 0x91, 0x7a, 0x16],
            before.data[&at] & 0xff00_ffff | (k7 & 0xff) << 16,
            None,
        ),
        // kmovd and kmovq [rdx + 20], k7
        (vec![0xc4, 0xe1, 0xf9, 0x91, 0x7a, 0x14], k7, None),
        (vec![0xc4, 0xe1, 0xf8, 0x91, 0x7a, 0x14], k7, Some(0)),
    ] {
        let m = after(&before, &bytes);
        let mut rest = before.clone();
        rest.data.insert(at, low);
        if let Some(high) = high {
            rest.data.insert(at + 4, high);
        }
        rest.mem = m.mem.clone();
        assert_eq!(m, rest, "{bytes:02x?}");
    }
}

#[test]
fn masks_are_tested() {
    for (a, b) in [(0u16, 0u16), (0xff00, 0x00ff), (1, 0), (0xffff, 0x1234), (0xfffe, 0)] {
        let mut before = Machine::new();
        (before.k[1], before.k[7]) = (a, b);
        // kortestw, kortestd and kortestq k1, k7
        for bytes in [
            vec![0xc5u8, 0xf8, 0x98, 0xcf],
            vec![0xc4, 0xe1, 0xf9, 0x98, 0xcf],
            vec![0xc4, 0xe1, 0xf8, 0x98, 0xcf],
        ] {
            let want = Machine { zero: a | b == 0, carry: a | b == 0xffff, ..before.clone() };
            assert_eq!(after(&before, &bytes), want, "{bytes:02x?}");
        }
    }
}

/// Lane 0 of a register holding `x`, a float or (`w` 1) a double.
fn with_scalar(z: &mut Lanes, w: u8, x: f64) {
    if w == 0 {
        z[0] = (x as f32).to_bits();
    } else {
        z[0] = x.to_bits() as u32;
        z[1] = (x.to_bits() >> 32) as u32;
    }
}

#[test]
fn integers_become_floats() {
    let at = RDX + 20;
    for rax in [0x1122_3344_8556_7788u64, 5, u64::MAX, 0x8000_0000, 0x7fff_ffff_ffff_ffff] {
        let mut before = Machine::new();
        before.rax = rax;
        before.data.insert(at, rax as u32);
        before.data.insert(at + 4, (rax >> 32) as u32);
        // vcvtsi2ss and vcvtusi2ss, pp 2, vcvtsi2sd and vcvtusi2sd, pp 3
        for (double, unsigned, wide) in
            [(0, 0, 0), (0, 0, 1), (0, 1, 0), (1, 0, 0), (1, 0, 1), (1, 1, 0)]
        {
            let n = match (unsigned, wide) {
                (0, 0) => rax as i32 as i64,
                (0, _) => rax as i64,
                _ => rax as u32 as i64,
            };
            let op = if unsigned == 1 { 0x7b } else { 0x2a };
            let e = Evex { pp: 2 + double, w: wide, op, rm: 0, ll: 0, ..INT };
            let mut want = before.z[17];
            if double == 0 {
                want[0] = (n as f32).to_bits();
            } else {
                with_scalar(&mut want, 1, n as f64);
            }
            want[4..].fill(0);
            for bytes in [e.bytes(None), e.from_memory(20, false, None)] {
                let m = after(&before, &bytes);
                let mut rest = before.clone();
                rest.z[3] = want;
                rest.mem = m.mem.clone();
                assert_eq!(m, rest, "{bytes:02x?}");
            }
        }
    }
}

#[test]
fn floats_become_integers() {
    let at = RDX + 20;
    for x in [1.5f64, -2.5, 2147483648.0, -2147483649.0, 3e9, 1e30, f64::NAN, -0.75] {
        // From a float, pp 2, or a double, pp 3; truncating or not.
        for (double, truncates, unsigned, wide) in [
            (0u8, true, false, 0u8),
            (0, false, false, 0),
            (0, true, false, 1),
            (0, false, false, 1),
            (1, true, false, 0),
            (1, false, false, 0),
            (1, true, false, 1),
            (1, false, false, 1),
            (0, true, true, 0),
            (1, false, true, 0),
        ] {
            let mut before = Machine::new();
            with_scalar(&mut before.z[9], double, x);
            before.data.insert(at, before.z[9][0]);
            before.data.insert(at + 4, before.z[9][1]);
            let v = float(double, &before.z[9], 0);
            let v = if truncates { v.trunc() } else { v.round_ties_even() };
            let long = if v >= -(2f64.powi(63)) && v < 2f64.powi(63) { v as i64 } else { i64::MIN };
            let want = if wide == 1 {
                long as u64
            } else if unsigned {
                long as u32 as u64
            } else if v >= -(2f64.powi(31)) && v < 2f64.powi(31) {
                v as i32 as u32 as u64
            } else {
                0x8000_0000
            };
            let op = 0x2d - truncates as u8;
            let op = if unsigned { 0x79 - truncates as u8 } else { op };
            let e = Evex { pp: 2 + double, w: wide, op, reg: 0, vvvv: 0, ll: 0, ..INT };
            for bytes in [e.bytes(None), e.from_memory(20, false, None)] {
                let m = after(&before, &bytes);
                let mut rest = before.clone();
                rest.rax = want;
                rest.mem = m.mem.clone();
                assert_eq!(m, rest, "{bytes:02x?} of {x}");
            }
        }
    }
}

#[test]
fn scalar_floats_change_their_width() {
    for x in [1.1f64, -3e20, 0.0] {
        for double in 0..2u8 {
            let mut before = Machine::new();
            with_scalar(&mut before.z[9], double, x);
            // vcvtss2sd, pp 2, and vcvtsd2ss, pp 3 with W
            let e = Evex { pp: 2 + double, w: double, op: 0x5a, ll: 0, ..INT };
            let mut want = before.z[17];
            with_scalar(&mut want, 1 - double, float(double, &before.z[9], 0));
            want[4..].fill(0);
            let m = after(&before, &e.bytes(None));
            let mut rest = before.clone();
            rest.z[3] = want;
            rest.mem = m.mem.clone();
            assert_eq!(m, rest);
        }
    }
}
