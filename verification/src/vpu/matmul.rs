//! The matrix-multiply service of the card worker, from the host side: the
//! window areas it uses, the four requests (`K_UPLOAD`, `K_MATMUL`,
//! `K_MATMUL_ID`, `K_FREE`), which shapes a card takes, and what the check of
//! every weight format runs.
use crate::text;
use crate::vpu::proto::{
    Matmul, Request, BLOCK, CHUNK, K_POLY30, MM_F16, MM_F32, MM_IQ4_XS, MM_Q4_K, MM_Q5_K, MM_Q6_K,
    MM_Q8_0, OFF_DATA, OK,
};
use crate::vpu::weights;
use crate::vpu::weights::{quantized, row_bytes};
use vstd::prelude::*;

verus! {

/// Window layout of the service, above the seamless path's areas (which end
/// at 42 MiB): the tensor being uploaded or streamed, the activations, the
/// result.
pub const OFF_A: u64 = 0x0800_0000;

pub const A_MAX: u64 = 0x2000_0000;

pub const OFF_B: u64 = 0x2800_0000;

pub const B_MAX: u64 = 0x0400_0000;

pub const OFF_D: u64 = 0x2c00_0000;

pub const D_MAX: u64 = 0x0400_0000;

/// How much of the window the service needs mapped.
pub const WINDOW_LEN: u64 = 0x3000_0000;

/// The areas of the service follow each other, each as long as it is said
/// to be, and the window holds them all.
pub proof fn law_areas()
    ensures
        OFF_DATA <= OFF_A,
        OFF_A + A_MAX == OFF_B,
        OFF_B + B_MAX == OFF_D,
        OFF_D + D_MAX == WINDOW_LEN,
        OFF_A % BLOCK == 0,
        OFF_B % BLOCK == 0,
        OFF_D % BLOCK == 0,
{
}

/// The least multiple of the block size that is no less than `x`.
pub open spec fn spec_round_up(x: int) -> int {
    (x + BLOCK - 1) / BLOCK as int * BLOCK
}

/// `x` rounded up to whole blocks.
pub fn round_up(x: u64) -> (r: u64)
    requires
        x + BLOCK - 1 <= u64::MAX,
    ensures
        r == spec_round_up(x as int),
        x <= r < x + BLOCK,
        r % BLOCK == 0,
{
    (x + (BLOCK - 1)) / BLOCK * BLOCK
}

/// Rounding up gives whole blocks, room for what was asked, and no block
/// more: no smaller multiple has the room.
pub proof fn law_round_up_is_least(x: int, y: int)
    requires
        0 <= x <= y,
        y % BLOCK as int == 0,
    ensures
        x <= spec_round_up(x) <= y,
        spec_round_up(x) % BLOCK as int == 0,
        spec_round_up(spec_round_up(x)) == spec_round_up(x),
{
}

pub open spec fn spec_status_name(s: i32) -> Seq<char> {
    if s == OK {
        "ok"@
    } else if s == -1 {
        "the card could not reserve memory"@
    } else if s == -2 {
        "reading from the window failed on the card"@
    } else if s == -3 {
        "writing to the window failed on the card"@
    } else if s == -4 {
        "the card rejected the request (shape, type or alignment)"@
    } else if s == -5 {
        "the worker does not know this kernel (an older worker: scripts/phi-vpu.sh deploy)"@
    } else {
        "unknown status"@
    }
}

/// What a status the card answers means.
pub fn status_name(s: i32) -> (n: &'static str)
    ensures
        n@ == spec_status_name(s),
{
    if s == OK {
        "ok"
    } else if s == -1 {
        "the card could not reserve memory"
    } else if s == -2 {
        "reading from the window failed on the card"
    } else if s == -3 {
        "writing to the window failed on the card"
    } else if s == -4 {
        "the card rejected the request (shape, type or alignment)"
    } else if s == -5 {
        "the worker does not know this kernel (an older worker: scripts/phi-vpu.sh deploy)"
    } else {
        "unknown status"
    }
}

pub open spec fn spec_weight_type_name(t: u32) -> Seq<char> {
    if t == MM_F32 {
        "f32"@
    } else if t == MM_F16 {
        "f16"@
    } else if t == MM_Q4_K {
        "q4_K"@
    } else if t == MM_Q5_K {
        "q5_K"@
    } else if t == MM_Q6_K {
        "q6_K"@
    } else if t == MM_Q8_0 {
        "q8_0"@
    } else if t == MM_IQ4_XS {
        "iq4_xs"@
    } else {
        "?"@
    }
}

/// The name llama.cpp gives the type.
pub fn weight_type_name(t: u32) -> (n: &'static str)
    ensures
        n@ == spec_weight_type_name(t),
{
    if t == MM_F32 {
        "f32"
    } else if t == MM_F16 {
        "f16"
    } else if t == MM_Q4_K {
        "q4_K"
    } else if t == MM_Q5_K {
        "q5_K"
    } else if t == MM_Q6_K {
        "q6_K"
    } else if t == MM_Q8_0 {
        "q8_0"
    } else if t == MM_IQ4_XS {
        "iq4_xs"
    } else {
        "?"
    }
}

/// Can the card take a multiply of this type and shape?
pub open spec fn spec_shape_ok(t: u32, k: int, nb_a: int, nb_b: int) -> bool {
    if t == MM_F32 {
        nb_a >= k * 4
    } else if t == MM_F16 {
        nb_a >= k * 2 && nb_a % 32 == 0
    } else if quantized(t) {
        &&& k % weights::block_weights(t) as int == 0
        &&& nb_a >= weights::spec_row_bytes(t, k)
        &&& nb_b % 64 == 0
        &&& (t == MM_Q4_K || t == MM_Q5_K) ==> nb_a % 16 == 0
    } else {
        false
    }
}

/// Can the card take a multiply of this type and shape? A whole row must be
/// there, in whole blocks, at the alignment the kernels' loads need.
pub fn shape_ok(t: u32, k: u64, nb_a: u64, nb_b: u64) -> (r: bool)
    requires
        k * 4 <= u64::MAX,
    ensures
        r == spec_shape_ok(t, k as int, nb_a as int, nb_b as int),
{
    if t == MM_F32 {
        nb_a >= k * 4
    } else if t == MM_F16 {
        nb_a >= k * 2 && nb_a % 32 == 0
    } else if t == MM_Q4_K || t == MM_Q5_K {
        k % 256 == 0 && nb_a >= row_bytes(t, k) && nb_a % 16 == 0 && nb_b % 64 == 0
    } else if t == MM_Q6_K || t == MM_IQ4_XS {
        k % 256 == 0 && nb_a >= row_bytes(t, k) && nb_b % 64 == 0
    } else if t == MM_Q8_0 {
        k % 32 == 0 && nb_a >= row_bytes(t, k) && nb_b % 64 == 0
    } else {
        false
    }
}

/// Bytes one activation row of `k` values occupies, as float16 or float32.
pub fn act_row_bytes(k: u64, half: bool) -> (b: u64)
    requires
        k * 4 <= u64::MAX,
    ensures
        b == (if half {
            k * 2
        } else {
            k * 4
        }),
{
    if half {
        k * 2
    } else {
        k * 4
    }
}

/// Bytes the column indices of a mixture occupy in front of its activations:
/// four each, rounded up to whole 64-byte lines.
pub fn ids_bytes(n: u64) -> (b: u64)
    requires
        n * 4 + 63 <= u64::MAX,
    ensures
        b == (n * 4 + 63) / 64 * 64,
        b >= n * 4,
        b % 64 == 0,
{
    (n * 4 + 63) / 64 * 64
}

/// The activation row that column `p` of a mixture multiplies: columns run
/// `n_used` to a token, and a token's columns share its `b_rows` rows in
/// turn.
pub fn mixture_row(p: u64, n_used: u64, b_rows: u64) -> (r: u64)
    requires
        n_used > 0,
        b_rows > 0,
        (p / n_used) * b_rows + b_rows <= u64::MAX,
    ensures
        r == (p % n_used) % b_rows + (p / n_used) * b_rows,
{
    assert((p % n_used) % b_rows < b_rows);
    assert((p / n_used) * b_rows >= 0) by (nonlinear_arith)
        requires
            p / n_used >= 0,
            b_rows > 0,
    ;
    (p % n_used) % b_rows + (p / n_used) * b_rows
}

impl Matmul {
    /// A descriptor of nothing.
    pub open spec fn zero() -> Matmul {
        Matmul {
            a_id: 0,
            a_off: 0,
            bytes: 0,
            a_type: 0,
            b_type: 0,
            m: 0,
            n: 0,
            k: 0,
            nb_a: 0,
            nb_b: 0,
            b_off: 0,
            d_off: 0,
            chunk: 0,
            n_used: 0,
            n_tokens: 0,
            b_rows: 0,
            ids_bytes: 0,
        }
    }

    pub fn nothing() -> (d: Matmul)
        ensures
            d == Matmul::zero(),
    {
        Matmul {
            a_id: 0,
            a_off: 0,
            bytes: 0,
            a_type: 0,
            b_type: 0,
            m: 0,
            n: 0,
            k: 0,
            nb_a: 0,
            nb_b: 0,
            b_off: 0,
            d_off: 0,
            chunk: 0,
            n_used: 0,
            n_tokens: 0,
            b_rows: 0,
            ids_bytes: 0,
        }
    }

    /// Keep the `bytes` bytes at the weight area under `id`.
    pub fn upload(id: u64, bytes: u64) -> (d: Matmul)
        requires
            bytes + BLOCK - 1 <= u64::MAX,
        ensures
            d == (Matmul {
                a_id: id,
                a_off: OFF_A,
                bytes: spec_round_up(bytes as int) as u64,
                ..Matmul::zero()
            }),
    {
        Matmul { a_id: id, a_off: OFF_A, bytes: round_up(bytes), ..Matmul::nothing() }
    }

    /// Let go of what is kept under `id`; of everything where it is 0.
    pub fn free(id: u64) -> (d: Matmul)
        ensures
            d == (Matmul { a_id: id, ..Matmul::zero() }),
    {
        Matmul { a_id: id, ..Matmul::nothing() }
    }
}

/// The types that a check runs: the one named, or all of them.
pub open spec fn chosen(only: Option<Seq<char>>) -> Seq<u32> {
    seq![MM_F32, MM_F16, MM_Q4_K, MM_Q5_K, MM_Q6_K, MM_Q8_0, MM_IQ4_XS].filter(
        |t: u32| only is None || only->0 == spec_weight_type_name(t),
    )
}

/// The text of an optional argument.
pub open spec fn words(only: Option<&str>) -> Option<Seq<char>> {
    match only {
        Some(o) => Some(o@),
        None => None,
    }
}

/// The types that a check runs: the one named, or all of them; none where
/// the name is no type's.
pub fn types(only: Option<&str>) -> (v: Vec<u32>)
    ensures
        v@ == chosen(words(only)),
{
    let all: [u32; 7] = [MM_F32, MM_F16, MM_Q4_K, MM_Q5_K, MM_Q6_K, MM_Q8_0, MM_IQ4_XS];
    let ghost pred = |t: u32| words(only) is None || words(only)->0 == spec_weight_type_name(t);
    let mut v: Vec<u32> = Vec::new();
    for i in 0..7usize
        invariant
            all@ == seq![MM_F32, MM_F16, MM_Q4_K, MM_Q5_K, MM_Q6_K, MM_Q8_0, MM_IQ4_XS],
            pred == (|t: u32| words(only) is None || words(only)->0 == spec_weight_type_name(t)),
            v@ == all@.take(i as int).filter(pred),
    {
        let t: u32 = all[i];
        let take = match only {
            Some(o) => text::same(o, weight_type_name(t)),
            None => true,
        };
        proof {
            assert(all@.take(i + 1).drop_last() =~= all@.take(i as int));
            reveal(Seq::filter);
        }
        if take {
            v.push(t);
        }
    }
    assert(all@.take(7) =~= all@);
    v
}

/// The weight types of gate, up and down that the feed-forward check runs:
/// every quantized type in each of the three places at least once, as a
/// model mixes them, or each type that was asked for in all three.
pub fn combos(types: &Vec<u32>, only: bool) -> (v: Vec<[u32; 3]>)
    ensures
        only ==> v@ == types@.filter(|t: u32| quantized(t)).map_values(|t: u32| [t, t, t]),
        !only ==> v@ == seq![
            [MM_Q4_K, MM_Q4_K, MM_Q4_K],
            [MM_Q5_K, MM_Q5_K, MM_Q6_K],
            [MM_Q6_K, MM_Q6_K, MM_Q5_K],
            [MM_Q8_0, MM_Q8_0, MM_Q8_0],
            [MM_IQ4_XS, MM_Q5_K, MM_IQ4_XS],
        ],
{
    let mut v: Vec<[u32; 3]> = Vec::new();
    if only {
        let ghost pred = |t: u32| quantized(t);
        let ghost thrice = |t: u32| [t, t, t];
        for i in 0..types.len()
            invariant
                pred == (|t: u32| quantized(t)),
                thrice == (|t: u32| [t, t, t]),
                v@ == types@.take(i as int).filter(pred).map_values(thrice),
        {
            let t: u32 = types[i];
            proof {
                assert(types@.take(i + 1).drop_last() =~= types@.take(i as int));
                reveal(Seq::filter);
            }
            if quantized(t) {
                v.push([t, t, t]);
                assert(v@ =~= types@.take(i + 1).filter(pred).map_values(thrice));
            }
        }
        assert(types@.take(types@.len() as int) =~= types@);
    } else {
        v.push([MM_Q4_K, MM_Q4_K, MM_Q4_K]);
        v.push([MM_Q5_K, MM_Q5_K, MM_Q6_K]);
        v.push([MM_Q6_K, MM_Q6_K, MM_Q5_K]);
        v.push([MM_Q8_0, MM_Q8_0, MM_Q8_0]);
        v.push([MM_IQ4_XS, MM_Q5_K, MM_IQ4_XS]);
    }
    v
}

/// The activations a type is checked with: only the quantized kernels have a
/// float16-activation twin.
pub fn act_for(t: u32, half: bool) -> (r: bool)
    ensures
        r == (half && t != MM_F32 && t != MM_F16),
{
    half && t != MM_F32 && t != MM_F16
}

/// Degree of the polynomial request.
pub const DEG: u64 = 30;

/// Lanes of a vector.
pub const LANES: u64 = 16;

/// Where a polynomial request has its data: every region starts on a block
/// and is followed by its own slack, as the card reads and writes whole
/// blocks.
#[derive(Clone, Copy, PartialEq, Eq, Structural, Debug)]
pub struct PolyLayout {
    pub n: u64,
    pub in_off: u64,
    pub coef_off: u64,
    pub out_off: u64,
    /// Bytes of the coefficients, one copy per lane.
    pub aux_len: u64,
    /// How much of the window must be mapped.
    pub window: u64,
}

/// How much of the window a polynomial request of `n` elements takes.
pub open spec fn poly_window(n: int) -> int {
    spec_round_up(OFF_DATA + 2 * spec_round_up(n * 4) + BLOCK + (DEG + 1) * LANES * 4) + BLOCK
}

/// The layout for `n` elements, rounded down to whole chunks; none where no
/// chunk is left.
pub fn poly_layout(n: u64) -> (r: Option<PolyLayout>)
    requires
        poly_window((n - n % CHUNK) as int) <= u64::MAX,
    ensures
        r is None == (n < CHUNK),
        r matches Some(l) ==> {
            &&& l.n == n - n % CHUNK
            &&& l.in_off == OFF_DATA
            &&& l.coef_off == spec_round_up(l.in_off + l.n * 4)
            &&& l.aux_len == (DEG + 1) * LANES * 4
            &&& l.out_off == spec_round_up(l.coef_off + l.aux_len)
            &&& l.window == poly_window(l.n as int)
        },
{
    let whole: u64 = n - n % CHUNK;
    if whole == 0 {
        return None;
    }
    let aux_len: u64 = (DEG + 1) * LANES * 4;
    let coef_off: u64 = round_up(OFF_DATA + whole * 4);
    let out_off: u64 = round_up(coef_off + aux_len);
    let window: u64 = round_up(OFF_DATA + 2 * round_up(whole * 4) + BLOCK + aux_len) + BLOCK;
    Some(PolyLayout { n: whole, in_off: OFF_DATA, coef_off, out_off, aux_len, window })
}

/// The regions of a polynomial request follow each other without meeting,
/// each on a block, and the window holds the last one's blocks.
pub proof fn law_poly_regions(l: PolyLayout)
    requires
        l.n % CHUNK == 0,
        l.in_off == OFF_DATA,
        l.coef_off == spec_round_up(l.in_off + l.n * 4),
        l.aux_len == (DEG + 1) * LANES * 4,
        l.out_off == spec_round_up(l.coef_off + l.aux_len),
        l.window == poly_window(l.n as int),
    ensures
        l.in_off + l.n * 4 <= l.coef_off,
        l.coef_off + l.aux_len <= l.out_off,
        spec_round_up(l.out_off + l.n * 4) <= l.window,
        l.in_off % BLOCK == 0,
        l.coef_off % BLOCK == 0,
        l.out_off % BLOCK == 0,
{
}

/// The polynomial request.
pub fn poly_request(l: &PolyLayout, threads: u32) -> (r: Request)
    ensures
        r == (Request {
            seq: 0,
            kernel: K_POLY30,
            threads,
            n: l.n,
            in_off: l.in_off,
            out_off: l.out_off,
            aux_off: l.coef_off,
            aux_len: l.aux_len,
        }),
{
    Request {
        seq: 0,
        kernel: K_POLY30,
        threads,
        n: l.n,
        in_off: l.in_off,
        out_off: l.out_off,
        aux_off: l.coef_off,
        aux_len: l.aux_len,
    }
}

/// The lanes in which `got` differs from `want`.
pub open spec fn spec_mismatches(got: Seq<u32>, want: Seq<u32>, n: int) -> Seq<usize>
    decreases n,
{
    if n <= 0 {
        seq![]
    } else if got[n - 1] == want[n - 1] {
        spec_mismatches(got, want, n - 1)
    } else {
        spec_mismatches(got, want, n - 1).push((n - 1) as usize)
    }
}

/// The lanes in which `got` differs from `want`, in order.
pub fn mismatches(got: &[u32], want: &[u32]) -> (v: Vec<usize>)
    requires
        got@.len() == want@.len(),
    ensures
        v@ == spec_mismatches(got@, want@, got@.len() as int),
{
    let mut v: Vec<usize> = Vec::new();
    for i in 0..got.len()
        invariant
            got@.len() == want@.len(),
            v@ == spec_mismatches(got@, want@, i as int),
    {
        if got[i] != want[i] {
            v.push(i);
        }
    }
    v
}

/// Nothing differs just where the lanes are the same.
pub proof fn law_no_mismatch(got: Seq<u32>, want: Seq<u32>)
    requires
        got.len() == want.len(),
    ensures
        spec_mismatches(got, want, got.len() as int).len() == 0 <==> got == want,
{
    lemma_no_mismatch(got, want, got.len() as int);
    assert(got.take(got.len() as int) =~= got);
    assert(want.take(want.len() as int) =~= want);
}

proof fn lemma_no_mismatch(got: Seq<u32>, want: Seq<u32>, n: int)
    requires
        got.len() == want.len(),
        0 <= n <= got.len(),
    ensures
        spec_mismatches(got, want, n).len() == 0 <==> got.take(n) == want.take(n),
    decreases n,
{
    if n > 0 {
        lemma_no_mismatch(got, want, n - 1);
        assert(got.take(n).drop_last() =~= got.take(n - 1));
        assert(want.take(n).drop_last() =~= want.take(n - 1));
        if got.take(n) == want.take(n) {
            assert(got.take(n)[n - 1] == want.take(n)[n - 1]);
        }
        if got[n - 1] == want[n - 1] && got.take(n - 1) == want.take(n - 1) {
            assert(got.take(n) =~= got.take(n - 1).push(got[n - 1]));
            assert(want.take(n) =~= want.take(n - 1).push(want[n - 1]));
        }
    } else {
        assert(got.take(0) =~= want.take(0));
    }
}

} // verus!
