//! Little-endian words as byte sequences.
use vstd::prelude::*;

verus! {

/// The four bytes of `x`, least significant first.
pub open spec fn le32(x: u32) -> Seq<u8> {
    seq![
        (x & 0xff) as u8,
        ((x >> 8) & 0xff) as u8,
        ((x >> 16) & 0xff) as u8,
        ((x >> 24) & 0xff) as u8,
    ]
}

/// The eight bytes of `x`, least significant first.
pub open spec fn le64(x: u64) -> Seq<u8> {
    le32((x & 0xffff_ffff) as u32) + le32((x >> 32) as u32)
}

/// The word whose four bytes, least significant first, begin at `at`.
pub open spec fn word32(b: Seq<u8>, at: int) -> u32 {
    (b[at] as u32) | ((b[at + 1] as u32) << 8) | ((b[at + 2] as u32) << 16) | ((b[at + 3] as u32) << 24)
}

/// The word whose eight bytes, least significant first, begin at `at`.
pub open spec fn word64(b: Seq<u8>, at: int) -> u64 {
    (word32(b, at) as u64) | ((word32(b, at + 4) as u64) << 32)
}

/// Reading the bytes of a word gives the word back.
pub proof fn lemma_word32(x: u32)
    ensures
        word32(le32(x), 0) == x,
{
    assert((((x & 0xff) as u8) as u32) | (((((x >> 8) & 0xff) as u8) as u32) << 8) | (((((x >> 16)
        & 0xff) as u8) as u32) << 16) | (((((x >> 24) & 0xff) as u8) as u32) << 24) == x)
        by (bit_vector);
}

/// Reading the bytes of a long word gives the word back.
pub proof fn lemma_word64(x: u64)
    ensures
        word64(le64(x), 0) == x,
{
    lemma_word32((x & 0xffff_ffff) as u32);
    lemma_word32((x >> 32) as u32);
    assert(word32(le64(x), 0) == word32(le32((x & 0xffff_ffff) as u32), 0));
    assert(word32(le64(x), 4) == word32(le32((x >> 32) as u32), 0));
    assert((((x & 0xffff_ffff) as u32) as u64) | ((((x >> 32) as u32) as u64) << 32) == x)
        by (bit_vector);
}

/// Reads the word at `at`.
pub fn get_le32(b: &[u8], at: usize) -> (x: u32)
    requires
        at + 4 <= b@.len(),
    ensures
        x == word32(b@, at as int),
{
    (b[at] as u32) | ((b[at + 1] as u32) << 8) | ((b[at + 2] as u32) << 16) | ((b[at + 3] as u32)
        << 24)
}

/// Reads the long word at `at`.
pub fn get_le64(b: &[u8], at: usize) -> (x: u64)
    requires
        at + 8 <= b@.len(),
    ensures
        x == word64(b@, at as int),
{
    let end: usize = b.len();
    assert(at + 8 <= end);
    (get_le32(b, at) as u64) | ((get_le32(b, at + 4) as u64) << 32)
}

/// Appends the four bytes of `x`, least significant first.
pub fn push_le32(v: &mut Vec<u8>, x: u32)
    ensures
        final(v)@ == old(v)@ + le32(x),
{
    v.push((x & 0xff) as u8);
    v.push(((x >> 8) & 0xff) as u8);
    v.push(((x >> 16) & 0xff) as u8);
    v.push(((x >> 24) & 0xff) as u8);
    assert(v@ =~= old(v)@ + le32(x));
}

/// Appends the eight bytes of `x`, least significant first.
pub fn push_le64(v: &mut Vec<u8>, x: u64)
    ensures
        final(v)@ == old(v)@ + le64(x),
{
    push_le32(v, (x & 0xffff_ffff) as u32);
    push_le32(v, (x >> 32) as u32);
    assert(v@ =~= old(v)@ + le64(x));
}

/// Appends every byte of `more`.
pub fn push_all(v: &mut Vec<u8>, more: &[u8])
    ensures
        final(v)@ == old(v)@ + more@,
{
    let mut i: usize = 0;
    while i < more.len()
        invariant
            i <= more@.len(),
            v@ == old(v)@ + more@.take(i as int),
        decreases more@.len() - i,
    {
        v.push(more[i]);
        i = i + 1;
        assert(v@ =~= old(v)@ + more@.take(i as int));
    }
    assert(more@.take(more@.len() as int) =~= more@);
}

/// The low bits of a byte, and its top one, are small numbers.
pub proof fn lemma_low(x: u8)
    ensures
        x & 1 <= 1,
        x & 3 <= 3,
        x & 7 <= 7,
        x & 0xf <= 0xf,
        x >> 7 <= 1,
{
    assert(x & 1 <= 1 && x & 3 <= 3 && x & 7 <= 7 && x & 0xf <= 0xf && x >> 7 <= 1) by (bit_vector);
}

} // verus!
