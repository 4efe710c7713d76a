//! Numbers as text.
use vstd::prelude::*;

verus! {

/// One hexadecimal digit, in lower case.
pub open spec fn digit(d: int) -> Seq<char> {
    if d == 0 {
        "0"@
    } else if d == 1 {
        "1"@
    } else if d == 2 {
        "2"@
    } else if d == 3 {
        "3"@
    } else if d == 4 {
        "4"@
    } else if d == 5 {
        "5"@
    } else if d == 6 {
        "6"@
    } else if d == 7 {
        "7"@
    } else if d == 8 {
        "8"@
    } else if d == 9 {
        "9"@
    } else if d == 10 {
        "a"@
    } else if d == 11 {
        "b"@
    } else if d == 12 {
        "c"@
    } else if d == 13 {
        "d"@
    } else if d == 14 {
        "e"@
    } else {
        "f"@
    }
}

/// `n` in decimal, without leading zeros.
pub open spec fn decimal(n: nat) -> Seq<char>
    decreases n,
{
    if n < 10 {
        digit(n as int)
    } else {
        decimal(n / 10) + digit((n % 10) as int)
    }
}

/// `n` in decimal, with a minus sign where it is negative.
pub open spec fn signed(n: int) -> Seq<char> {
    if n < 0 {
        "-"@ + decimal((-n) as nat)
    } else {
        decimal(n as nat)
    }
}

/// A byte as two hexadecimal digits.
pub open spec fn hex2(b: u8) -> Seq<char> {
    digit(b as int / 16) + digit(b as int % 16)
}

fn push_digit(s: &mut String, d: u8)
    requires
        d < 16,
    ensures
        final(s)@ == old(s)@ + digit(d as int),
{
    s.append(
        match d {
            0 => "0",
            1 => "1",
            2 => "2",
            3 => "3",
            4 => "4",
            5 => "5",
            6 => "6",
            7 => "7",
            8 => "8",
            9 => "9",
            10 => "a",
            11 => "b",
            12 => "c",
            13 => "d",
            14 => "e",
            _ => "f",
        },
    );
}

/// Appends `n` in decimal.
pub fn push_decimal(s: &mut String, n: u64)
    ensures
        final(s)@ == old(s)@ + decimal(n as nat),
    decreases n,
{
    if n >= 10 {
        push_decimal(s, n / 10);
    }
    push_digit(s, (n % 10) as u8);
    assert(s@ =~= old(s)@ + decimal(n as nat));
}

/// Appends `n` in decimal, with a minus sign where it is negative.
pub fn push_signed(s: &mut String, n: i32)
    ensures
        final(s)@ == old(s)@ + signed(n as int),
{
    if n < 0 {
        s.append("-");
        push_decimal(s, (-(n as i64)) as u64);
        assert(s@ =~= old(s)@ + signed(n as int));
    } else {
        push_decimal(s, n as u64);
    }
}

/// Appends a byte as two hexadecimal digits.
pub fn push_hex2(s: &mut String, b: u8)
    ensures
        final(s)@ == old(s)@ + hex2(b),
{
    push_digit(s, b / 16);
    push_digit(s, b % 16);
    assert(s@ =~= old(s)@ + hex2(b));
}

/// The value of a digit in the given radix (at most sixteen), or none.
pub open spec fn digit_value(c: u32, radix: int) -> Option<int> {
    let v: int = if 48 <= c <= 57 {
        c - 48
    } else if 97 <= c <= 102 {
        c - 87
    } else if 65 <= c <= 70 {
        c - 55
    } else {
        16
    };
    if v < radix {
        Some(v)
    } else {
        None
    }
}

/// The number that the digits write, where every character is one and the
/// number is no larger than a machine word.
pub open spec fn digits_value(c: Seq<u32>, radix: int) -> Option<int>
    decreases c.len(),
{
    if c.len() == 0 {
        Some(0)
    } else {
        match (digits_value(c.drop_last(), radix), digit_value(c.last(), radix)) {
            (Some(v), Some(d)) => if v * radix + d <= usize::MAX {
                Some(v * radix + d)
            } else {
                None
            },
            _ => None,
        }
    }
}

/// The number that a text of these characters writes: digits, at least one,
/// after a plus sign or none.
pub open spec fn number(c: Seq<u32>, radix: int) -> Option<int> {
    let digits = if c.len() > 0 && c[0] == 43 {
        c.skip(1)
    } else {
        c
    };
    if digits.len() == 0 {
        None
    } else {
        digits_value(digits, radix)
    }
}

/// Reads a number.
pub fn parse_number(c: &Vec<u32>, radix: usize) -> (r: Option<usize>)
    requires
        radix == 10 || radix == 16,
    ensures
        match r {
            Some(n) => number(c@, radix as int) == Some(n as int),
            None => number(c@, radix as int) is None,
        },
{
    let start: usize = if c.len() > 0 && c[0] == 43 {
        1
    } else {
        0
    };
    let ghost d = c@.skip(start as int);
    let ghost digits = if c@.len() > 0 && c@[0] == 43 {
        c@.skip(1)
    } else {
        c@
    };
    assert(d =~= digits);
    if c.len() == start {
        return None;
    }
    let mut v: usize = 0;
    let mut i: usize = start;
    while i < c.len()
        invariant
            start <= i <= c@.len(),
            d == c@.skip(start as int),
            number(c@, radix as int) == digits_value(d, radix as int),
            radix == 10 || radix == 16,
            digits_value(d.take(i - start), radix as int) == Some(v as int),
        decreases c@.len() - i,
    {
        let ch: u32 = c[i];
        assert(d.take(i - start + 1).drop_last() =~= d.take(i - start));
        let val: usize = if 48 <= ch && ch <= 57 {
            (ch - 48) as usize
        } else if 97 <= ch && ch <= 102 {
            (ch - 87) as usize
        } else if 65 <= ch && ch <= 70 {
            (ch - 55) as usize
        } else {
            16
        };
        if val >= radix || v > (usize::MAX - val) / radix {
            proof {
                let r = radix as int;
                if val < radix {
                    assert(v * r + val > usize::MAX) by (nonlinear_arith)
                        requires
                            v > (usize::MAX - val) / r,
                            r == 10 || r == 16,
                    ;
                }
                lemma_no_number(d, i - start + 1, r);
            }
            return None;
        }
        assert(v * radix + val <= usize::MAX) by (nonlinear_arith)
            requires
                v <= (usize::MAX - val) / (radix as int),
                radix == 10 || radix == 16,
                val < 16,
        ;
        v = v * radix + val;
        i = i + 1;
    }
    assert(d.take(c@.len() - start) =~= d);
    Some(v)
}

/// What begins with no number is none.
proof fn lemma_no_number(c: Seq<u32>, k: int, radix: int)
    requires
        0 <= k <= c.len(),
        digits_value(c.take(k), radix) is None,
    ensures
        digits_value(c, radix) is None,
    decreases c.len() - k,
{
    if k == c.len() {
        assert(c.take(k) =~= c);
    } else {
        assert(c.take(k + 1).drop_last() =~= c.take(k));
        lemma_no_number(c, k + 1, radix);
    }
}

/// The characters of a text, as numbers.
pub open spec fn codes(s: Seq<char>) -> Seq<u32> {
    Seq::new(s.len(), |i: int| s[i] as u32)
}

/// The characters of a text, as numbers.
pub fn codes_of(s: &str) -> (v: Vec<u32>)
    ensures
        v@ == codes(s@),
{
    let n: usize = s.unicode_len();
    let mut v: Vec<u32> = Vec::new();
    for i in 0..n
        invariant
            n == s@.len(),
            v@ =~= codes(s@).take(i as int),
    {
        v.push(s.get_char(i) as u32);
    }
    v
}

/// Whether two texts are the same.
pub fn same(a: &str, b: &str) -> (r: bool)
    ensures
        r == (a@ == b@),
{
    let n: usize = a.unicode_len();
    if n != b.unicode_len() {
        return false;
    }
    for i in 0..n
        invariant
            n == a@.len(),
            n == b@.len(),
            forall|k: int| 0 <= k < i ==> a@[k] == b@[k],
    {
        if a.get_char(i) != b.get_char(i) {
            return false;
        }
    }
    assert(a@ =~= b@);
    true
}

} // verus!
