//! Half-precision numbers, as bit patterns. A half is what the card's memory
//! operands up-convert for nothing; the host converts its activations to
//! halves and reads the scales of the quantized formats from them.
use vstd::arithmetic::power2::pow2;
use vstd::prelude::*;

verus! {

/// The largest finite half, 65504, as a float's bit pattern.
pub const F16_MAX: u32 = 0x477f_e000;

/// `x / 2^n` to the nearest integer, a tie to the even one.
pub open spec fn nearest_even(x: int, n: nat) -> int {
    let q = x / pow2(n) as int;
    let r = x % pow2(n) as int;
    if 2 * r > pow2(n) || (2 * r == pow2(n) && q % 2 == 1) {
        q + 1
    } else {
        q
    }
}

/// The position of the highest set bit of `m`.
pub open spec fn top_bit(m: int) -> nat
    decreases m,
{
    if m <= 1 {
        0
    } else {
        top_bit(m / 2) + 1
    }
}

/// The magnitude bits of the half nearest to a float of magnitude `bits`
/// (ties to even). A half's exponent is 112 less than the float's. With
/// none left, the result is subnormal: the significand is shifted by what
/// is missing. Past the largest half, or not a number at all, it is
/// infinity.
pub open spec fn half_magnitude(bits: int) -> int {
    let e = bits / 0x80_0000 - 112;
    let m = bits % 0x80_0000;
    if e >= 31 {
        0x7c00
    } else if e >= 1 {
        (e - 1) * 0x400 + nearest_even(0x80_0000 + m, 13)
    } else if e >= -10 {
        nearest_even(0x80_0000 + m, (14 - e) as nat)
    } else {
        0
    }
}

/// The half nearest to the float `bits`.
pub open spec fn half_of(bits: u32) -> int {
    (bits as int / 0x8000_0000) * 0x8000 + half_magnitude(bits as int % 0x8000_0000)
}

/// The magnitude bits of the float that a half of magnitude `h` is. A
/// subnormal half `m * 2^-24` has its highest bit as the float's leading
/// one.
pub open spec fn float_magnitude(h: int) -> int {
    let e = h / 0x400;
    let m = h % 0x400;
    if e == 31 {
        0x7f80_0000 + m * 0x2000
    } else if e >= 1 {
        (e + 112) * 0x80_0000 + m * 0x2000
    } else if m == 0 {
        0
    } else {
        let p = top_bit(m);
        (103 + p) * 0x80_0000 + (m - pow2(p)) * pow2((23 - p) as nat)
    }
}

/// The float that the half `h` is.
pub open spec fn float_of(h: u16) -> int {
    (h as int / 0x8000) * 0x8000_0000 + float_magnitude(h as int % 0x8000)
}

/// What a half's bits say it is not: a number.
pub open spec fn half_is_nan(h: u16) -> bool {
    h as int % 0x8000 > 0x7c00
}

/// What a float's bits say it is not: a number.
pub open spec fn is_nan(bits: u32) -> bool {
    bits as int % 0x8000_0000 > 0x7f80_0000
}

proof fn lemma_pow2s()
    ensures
        pow2(0) == 1,
        pow2(1) == 2,
        pow2(2) == 4,
        pow2(3) == 8,
        pow2(4) == 16,
        pow2(5) == 32,
        pow2(6) == 64,
        pow2(7) == 128,
        pow2(8) == 256,
        pow2(9) == 512,
        pow2(10) == 1024,
        pow2(11) == 2048,
        pow2(12) == 4096,
        pow2(13) == 8192,
        pow2(14) == 16384,
        pow2(15) == 32768,
        pow2(16) == 65536,
        pow2(17) == 131072,
        pow2(18) == 262144,
        pow2(19) == 524288,
        pow2(20) == 1048576,
        pow2(21) == 2097152,
        pow2(22) == 4194304,
        pow2(23) == 8388608,
        pow2(24) == 16777216,
{
    vstd::arithmetic::power2::lemma2_to64();
}

/// `x / 2^n` to the nearest integer, a tie to the even one.
fn round_shift(x: u32, n: u32) -> (r: u32)
    requires
        1 <= n <= 24,
        x < 0x100_0000,
    ensures
        r == nearest_even(x as int, n as nat),
        r <= 0x80_0000,
{
    let mut unit: u32 = 1;
    let mut i: u32 = 0;
    proof {
        lemma_pow2s();
    }
    while i < n
        invariant
            i <= n <= 24,
            unit == pow2(i as nat),
            i < 24 ==> unit <= 0x80_0000,
        decreases n - i,
    {
        proof {
            lemma_pow2s();
            vstd::arithmetic::power2::lemma_pow2_unfold((i + 1) as nat);
            if i + 1 < 24 {
                vstd::arithmetic::power2::lemma_pow2_strictly_increases((i + 1) as nat, 24);
            }
        }
        unit = unit * 2;
        i = i + 1;
    }
    proof {
        lemma_pow2s();
        if n > 1 {
            vstd::arithmetic::power2::lemma_pow2_strictly_increases(1, n as nat);
        }
    }
    let q: u32 = x / unit;
    let r: u32 = x % unit;
    assert(q <= 0x80_0000 - 1) by (nonlinear_arith)
        requires
            q == x / unit,
            x < 0x100_0000,
            unit >= 2,
    ;
    let up = r > unit - r || (r == unit - r && q % 2 == 1);
    if up {
        q + 1
    } else {
        q
    }
}

/// The half nearest to the float `bits`, a tie to the even one. What is not
/// a number becomes an infinity; the values of the check are ordinary
/// magnitudes.
pub fn f32_to_f16(bits: u32) -> (h: u16)
    ensures
        h == half_of(bits),
{
    let sign: u32 = if bits >= 0x8000_0000 {
        0x8000
    } else {
        0
    };
    let mag: u32 = bits % 0x8000_0000;
    let e: i32 = (mag / 0x80_0000) as i32 - 112;
    let m: u32 = mag % 0x80_0000;
    assert(bits as int / 0x8000_0000 == (if bits >= 0x8000_0000 {
        1int
    } else {
        0
    }));
    if e >= 31 {
        return (sign + 0x7c00) as u16;
    }
    if e >= 1 {
        let r: u32 = round_shift(0x80_0000 + m, 13);
        proof {
            lemma_normal_bound(m as int);
        }
        return (sign + (e as u32 - 1) * 0x400 + r) as u16;
    }
    if e >= -10 {
        let n: u32 = (14 - e) as u32;
        let r: u32 = round_shift(0x80_0000 + m, n);
        proof {
            lemma_subnormal_bound(m as int, n as nat);
        }
        return (sign + r) as u16;
    }
    sign as u16
}

/// A normal significand rounds to eleven bits, or to the next power of two.
proof fn lemma_normal_bound(m: int)
    requires
        0 <= m < 0x80_0000,
    ensures
        0x400 <= nearest_even(0x80_0000 + m, 13) <= 0x800,
{
    lemma_pow2s();
}

/// A subnormal one rounds to at most ten bits, or to the least normal.
proof fn lemma_subnormal_bound(m: int, n: nat)
    requires
        0 <= m < 0x80_0000,
        14 <= n <= 24,
    ensures
        0 <= nearest_even(0x80_0000 + m, n) <= 0x400,
{
    lemma_pow2s();
    let x = 0x80_0000 + m;
    let u = pow2(n) as int;
    if n > 14 {
        vstd::arithmetic::power2::lemma_pow2_strictly_increases(14, n);
    }
    assert(0 <= x / u <= 0x3ff) by (nonlinear_arith)
        requires
            0 <= x < 0x100_0000,
            u >= 16384,
    ;
}

/// The float that the half `h` is.
pub fn f16_to_f32(h: u16) -> (bits: u32)
    ensures
        bits == float_of(h),
{
    let sign: u32 = if h >= 0x8000 {
        0x8000_0000
    } else {
        0
    };
    let mag: u32 = h as u32 % 0x8000;
    let e: u32 = mag / 0x400;
    let m: u32 = mag % 0x400;
    assert(h as int / 0x8000 == (if h >= 0x8000 {
        1int
    } else {
        0
    }));
    if e == 31 {
        return sign + (0x7f80_0000 + m * 0x2000);
    }
    if e >= 1 {
        return sign + ((e + 112) * 0x80_0000 + m * 0x2000);
    }
    if m == 0 {
        return sign;
    }
    // Shift the highest bit up to the place of the leading one.
    let mut p: u32 = 9;
    let mut top: u32 = 0x200;
    let mut scale: u32 = 0x4000;
    proof {
        lemma_pow2s();
    }
    while top > m
        invariant
            p <= 9,
            top == pow2(p as nat),
            scale == pow2((23 - p) as nat),
            1 <= m < 0x400,
            m < 2 * top,
            top <= 0x200,
        decreases p,
    {
        proof {
            lemma_pow2s();
            if p == 0 {
                assert(false);
            }
            vstd::arithmetic::power2::lemma_pow2_unfold(p as nat);
            vstd::arithmetic::power2::lemma_pow2_unfold((24 - p) as nat);
            if p > 1 {
                vstd::arithmetic::power2::lemma_pow2_strictly_increases((24 - p) as nat, 23);
            }
        }
        p = p - 1;
        top = top / 2;
        scale = scale * 2;
    }
    proof {
        lemma_top_bit(m as int, p as nat);
        assert((m - top) * scale < 0x80_0000) by {
            vstd::arithmetic::power2::lemma_pow2_adds(p as nat, (23 - p) as nat);
            lemma_pow2s();
            assert((m - top) * scale < top * scale) by (nonlinear_arith)
                requires
                    m < 2 * top,
                    scale > 0,
            ;
        }
        assert(0 <= (m - top) * scale) by (nonlinear_arith)
            requires
                m >= top,
                scale >= 0,
        ;
    }
    sign + ((103 + p) * 0x80_0000 + (m - top) * scale)
}

/// A number between a power of two and the next has that as its top bit.
proof fn lemma_top_bit(m: int, p: nat)
    requires
        pow2(p) <= m < 2 * pow2(p),
    ensures
        top_bit(m) == p,
    decreases p,
{
    lemma_pow2s();
    if p > 0 {
        vstd::arithmetic::power2::lemma_pow2_unfold(p);
        vstd::arithmetic::power2::lemma_pow2_pos((p - 1) as nat);
        lemma_top_bit(m / 2, (p - 1) as nat);
    }
}

/// A half that is a number survives the way to a float and back.
pub proof fn law_round_trip(h: u16)
    requires
        !half_is_nan(h),
    ensures
        0 <= float_of(h) <= u32::MAX,
        half_of(float_of(h) as u32) == h,
{
    lemma_pow2s();
    let mag = h as int % 0x8000;
    let e = mag / 0x400;
    let m = mag % 0x400;
    let f = float_magnitude(mag);
    if e == 0 && m != 0 {
        lemma_top_bit_bounds(m);
        let p = top_bit(m);
        if p >= 10 {
            if p > 10 {
                vstd::arithmetic::power2::lemma_pow2_strictly_increases(10, p);
            }
            assert(false);
        }
        let k = (23 - p) as nat;
        let top = pow2(p) as int;
        let scale = pow2(k) as int;
        vstd::arithmetic::power2::lemma_pow2_adds(p, k);
        vstd::arithmetic::power2::lemma_pow2_pos(k);
        let frac = (m - top) * scale;
        assert(0 <= frac < 0x80_0000) by (nonlinear_arith)
            requires
                frac == (m - top) * scale,
                top * scale == 0x80_0000,
                top <= m < 2 * top,
                scale > 0,
        ;
        assert(f == (103 + p) * 0x80_0000 + frac);
        assert(f / 0x80_0000 == 103 + p && f % 0x80_0000 == frac);
        // The exponent left is p - 9, so the shift is 23 - p: exact.
        assert(0x80_0000 + frac == m * scale) by (nonlinear_arith)
            requires
                frac == (m - top) * scale,
                top * scale == 0x80_0000,
        ;
        let x = 0x80_0000 + frac;
        assert(x == scale * m) by (nonlinear_arith)
            requires
                x == m * scale,
        ;
        vstd::arithmetic::div_mod::lemma_fundamental_div_mod_converse(x, scale, m, 0);
        assert(nearest_even(x, k) == m);
    } else if e >= 1 && e < 31 {
        assert(f / 0x80_0000 == e + 112 && f % 0x80_0000 == m * 0x2000);
        assert(nearest_even(0x80_0000 + m * 0x2000, 13) == 0x400 + m);
    }
}

/// The top bit of a positive number bounds it.
proof fn lemma_top_bit_bounds(m: int)
    requires
        m >= 1,
    ensures
        pow2(top_bit(m)) <= m < 2 * pow2(top_bit(m)),
    decreases m,
{
    lemma_pow2s();
    if m > 1 {
        lemma_top_bit_bounds(m / 2);
        vstd::arithmetic::power2::lemma_pow2_unfold((top_bit(m / 2) + 1) as nat);
    }
}

/// A finite half's magnitude, in units of `2^-24`.
pub open spec fn half_units(h: int) -> int {
    if h / 0x400 == 0 {
        h % 0x400
    } else {
        (0x400 + h % 0x400) * pow2((h / 0x400 - 1) as nat)
    }
}

/// A finite float's magnitude, in units of `2^-149`.
pub open spec fn float_units(bits: int) -> int {
    if bits / 0x80_0000 == 0 {
        bits % 0x80_0000
    } else {
        (0x80_0000 + bits % 0x80_0000) * pow2((bits / 0x80_0000 - 1) as nat)
    }
}

/// The float that a finite half is has exactly its value.
pub proof fn law_exact(h: int)
    requires
        0 <= h < 0x7c00,
    ensures
        float_units(float_magnitude(h)) == half_units(h) * pow2(125),
{
    lemma_pow2s();
    let e = h / 0x400;
    let m = h % 0x400;
    let f = float_magnitude(h);
    if e >= 1 {
        assert(f / 0x80_0000 == e + 112 && f % 0x80_0000 == m * 0x2000);
        let a = pow2((e - 1) as nat) as int;
        let b = pow2(125) as int;
        vstd::arithmetic::power2::lemma_pow2_adds((e - 1) as nat, 125);
        vstd::arithmetic::power2::lemma_pow2_adds(13, (e + 111) as nat);
        let c = pow2((e + 111) as nat) as int;
        assert(8192 * c == a * b);
        assert((0x80_0000 + m * 0x2000) * c == (0x400 + m) * a * b) by (nonlinear_arith)
            requires
                8192 * c == a * b,
        ;
        assert(float_units(f) == (0x80_0000 + m * 0x2000) * c);
        assert(half_units(h) == (0x400 + m) * a);
    } else if m != 0 {
        lemma_top_bit_bounds(m);
        let p = top_bit(m);
        if p >= 10 {
            if p > 10 {
                vstd::arithmetic::power2::lemma_pow2_strictly_increases(10, p);
            }
            assert(false);
        }
        let k = (23 - p) as nat;
        let top = pow2(p) as int;
        let scale = pow2(k) as int;
        vstd::arithmetic::power2::lemma_pow2_adds(p, k);
        vstd::arithmetic::power2::lemma_pow2_pos(k);
        let frac = (m - top) * scale;
        assert(0 <= frac < 0x80_0000) by (nonlinear_arith)
            requires
                frac == (m - top) * scale,
                top * scale == 0x80_0000,
                top <= m < 2 * top,
                scale > 0,
        ;
        assert(f / 0x80_0000 == 103 + p && f % 0x80_0000 == frac);
        assert(0x80_0000 + frac == m * scale) by (nonlinear_arith)
            requires
                frac == (m - top) * scale,
                top * scale == 0x80_0000,
        ;
        let c = pow2((102 + p) as nat) as int;
        vstd::arithmetic::power2::lemma_pow2_adds(k, (102 + p) as nat);
        assert(scale * c == pow2(125));
        assert(m * scale * c == m * (scale * c)) by (nonlinear_arith);
        assert(float_units(f) == (0x80_0000 + frac) * c);
    } else {
        assert(0 * pow2(125) == 0) by (nonlinear_arith);
    }
}

/// The half that the conversion in hardware gives: the nearest one, and a
/// quiet one for what is not a number.
pub open spec fn converted(bits: u32) -> int {
    if is_nan(bits) {
        (bits as int / 0x8000_0000) * 0x8000 + 0x7e00 + (bits as int % 0x40_0000) / 0x2000
    } else {
        half_of(bits)
    }
}

/// The largest magnitude among the numbers of `src`.
pub open spec fn largest(src: Seq<u32>) -> int
    decreases src.len(),
{
    if src.len() == 0 {
        0
    } else {
        let rest = largest(src.drop_last());
        let mag = src.last() as int % 0x8000_0000;
        if is_nan(src.last()) || mag <= rest {
            rest
        } else {
            mag
        }
    }
}

/// Floats as halves, which halves what crosses the link and the activation
/// bytes a core reads. Also returns the largest magnitude it converted,
/// because a half stops at 65504 and anything larger becomes infinity: the
/// caller compares it with `F16_MAX` and sends the multiply as float32
/// instead. Nothing bounds a model's activations.
pub fn to_f16(src: &[u32]) -> (r: (Vec<u16>, u32))
    ensures
        r.0@.len() == src@.len(),
        forall|i: int| 0 <= i < src@.len() ==> #[trigger] r.0@[i] == converted(src@[i]),
        r.1 == largest(src@),
{
    let mut out: Vec<u16> = Vec::new();
    let mut most: u32 = 0;
    for i in 0..src.len()
        invariant
            out@.len() == i,
            forall|j: int| 0 <= j < i ==> #[trigger] out@[j] == converted(src@[j]),
            most == largest(src@.take(i as int)),
            most <= 0x7f80_0000,
    {
        let bits: u32 = src[i];
        let mag: u32 = bits % 0x8000_0000;
        proof {
            assert(src@.take(i + 1).drop_last() =~= src@.take(i as int));
            assert(bits as int / 0x8000_0000 == (if bits >= 0x8000_0000 {
                1int
            } else {
                0
            }));
        }
        if mag > 0x7f80_0000 {
            let sign: u32 = if bits >= 0x8000_0000 {
                0x8000
            } else {
                0
            };
            out.push((sign + 0x7e00 + (bits % 0x40_0000) / 0x2000) as u16);
        } else {
            out.push(f32_to_f16(bits));
            if mag > most {
                most = mag;
            }
        }
    }
    assert(src@.take(src@.len() as int) =~= src@);
    (out, most)
}

/// Where the largest magnitude is within a half's range, every number is
/// converted to a finite half.
pub proof fn law_in_range(src: Seq<u32>, i: int)
    requires
        0 <= i < src.len(),
        !is_nan(src[i]),
        largest(src) <= F16_MAX,
    ensures
        converted(src[i]) % 0x8000 < 0x7c00,
{
    lemma_largest(src, i);
    lemma_pow2s();
    let mag = src[i] as int % 0x8000_0000;
    let e = mag / 0x80_0000 - 112;
    let m = mag % 0x80_0000;
    if e >= 1 {
        lemma_normal_bound(m);
    } else if e >= -10 {
        lemma_subnormal_bound(m, (14 - e) as nat);
    }
}

/// No number of the sequence is larger than the largest.
proof fn lemma_largest(src: Seq<u32>, i: int)
    requires
        0 <= i < src.len(),
        !is_nan(src[i]),
    ensures
        src[i] as int % 0x8000_0000 <= largest(src),
    decreases src.len(),
{
    if i < src.len() - 1 {
        lemma_largest(src.drop_last(), i);
    }
}

} // verus!
