//! What the check of the matrix-multiply service runs: the shapes, in which
//! order, what each asks of the card, where its results are, and which
//! stray writes show. The values, which are floats, and how far they may be
//! off are the caller's.
use crate::bits;
use crate::bits::{get_le32, get_le64};
use crate::vpu::matmul;
use crate::vpu::matmul::{act_row_bytes, ids_bytes, A_MAX, B_MAX, D_MAX, OFF_A, OFF_B, OFF_D};
use crate::vpu::proto::{Ffn, Matmul, MM_PROBE, MM_Q5_K, MM_Q6_K, MM_Q8_0, MM_SWIGLU};
use crate::vpu::weights;
use crate::vpu::weights::row_bytes;
use vstd::prelude::*;

verus! {

/// The rows of a small multiply: an odd number, so no unit of work divides it.
pub const ROWS: u64 = 61;

/// Bytes between a mixture's activation rows beyond the row's own.
pub const MIX_PAD: u64 = 256;

/// A multiply of `m` rows of `k` weights with `n` activation rows.
#[derive(Clone, Copy, PartialEq, Eq, Structural, Debug)]
pub struct Shape {
    pub m: u64,
    pub k: u64,
    pub n: u64,
}

/// A mixture: `experts` matrices, `n_used` of them picked per token.
/// `b_rows` is 1 when every expert of a token reads the same activation row
/// (a gate or up projection) and `n_used` when each has its own (a down
/// projection).
#[derive(Clone, Copy, PartialEq, Eq, Structural, Debug)]
pub struct Mixture {
    pub experts: u64,
    pub n_used: u64,
    pub n_tokens: u64,
    pub b_rows: u64,
}

/// How the card is to be asked, whatever the shape.
#[derive(Clone, Copy, PartialEq, Eq, Structural, Debug)]
pub struct Manner {
    /// Whether the activations go as halves.
    pub half: bool,
    /// Bytes added to the activation row stride.
    pub pad: u64,
    /// Rows the card takes per chunk; 0 for its own default.
    pub chunk: u64,
}

/// The small multiplies of a type: each activation-row count the kernels
/// distinguish, and, in the type with short blocks, a row that is no whole
/// number of long ones.
pub open spec fn shapes_of(t: u32) -> Seq<Shape> {
    seq![
        Shape { m: ROWS, k: 512, n: 1 },
        Shape { m: ROWS, k: 512, n: 4 },
        Shape { m: ROWS, k: 512, n: 8 },
        Shape { m: ROWS, k: if t == MM_Q8_0 { 544 } else { 512 }, n: 13 },
    ]
}

/// The small multiplies of a type.
pub fn shapes(t: u32) -> (v: Vec<Shape>)
    ensures
        v@ == shapes_of(t),
{
    let last: u64 = if t == MM_Q8_0 {
        544
    } else {
        512
    };
    let v = vec![
        Shape { m: ROWS, k: 512, n: 1 },
        Shape { m: ROWS, k: 512, n: 4 },
        Shape { m: ROWS, k: 512, n: 8 },
        Shape { m: ROWS, k: last, n: 13 },
    ];
    assert(v@ =~= shapes_of(t));
    v
}

/// The small mixtures. The last two put many columns on one expert, so the
/// card groups them eight and four at a time with their activation rows
/// scattered; the first four leave groups of one.
pub open spec fn mixtures_of() -> Seq<Mixture> {
    seq![
        Mixture { experts: 8, n_used: 3, n_tokens: 1, b_rows: 1 },
        Mixture { experts: 8, n_used: 3, n_tokens: 5, b_rows: 1 },
        Mixture { experts: 8, n_used: 3, n_tokens: 5, b_rows: 3 },
        Mixture { experts: 8, n_used: 8, n_tokens: 2, b_rows: 8 },
        Mixture { experts: 2, n_used: 2, n_tokens: 32, b_rows: 1 },
        Mixture { experts: 3, n_used: 4, n_tokens: 9, b_rows: 4 },
    ]
}

/// The small mixtures.
pub fn mixtures() -> (v: Vec<Mixture>)
    ensures
        v@ == mixtures_of(),
{
    let v = vec![
        Mixture { experts: 8, n_used: 3, n_tokens: 1, b_rows: 1 },
        Mixture { experts: 8, n_used: 3, n_tokens: 5, b_rows: 1 },
        Mixture { experts: 8, n_used: 3, n_tokens: 5, b_rows: 3 },
        Mixture { experts: 8, n_used: 8, n_tokens: 2, b_rows: 8 },
        Mixture { experts: 2, n_used: 2, n_tokens: 32, b_rows: 1 },
        Mixture { experts: 3, n_used: 4, n_tokens: 9, b_rows: 4 },
    ];
    assert(v@ =~= mixtures_of());
    v
}

/// The feed-forward blocks: every combination of types with the float32
/// intermediate, and the first again with float16.
pub fn blocks(combos: &Vec<[u32; 3]>) -> (v: Vec<([u32; 3], bool)>)
    ensures
        v@ == combos@.map_values(|t: [u32; 3]| (t, false)) + (if combos@.len() > 0 {
            seq![(combos@[0], true)]
        } else {
            seq![]
        }),
{
    let ghost plain = |t: [u32; 3]| (t, false);
    let mut v: Vec<([u32; 3], bool)> = Vec::new();
    for i in 0..combos.len()
        invariant
            plain == (|t: [u32; 3]| (t, false)),
            v@ =~= combos@.take(i as int).map_values(plain),
    {
        v.push((combos[i], false));
    }
    assert(combos@.take(combos@.len() as int) =~= combos@);
    if combos.len() > 0 {
        v.push((combos[0], true));
    }
    assert(v@ =~= combos@.map_values(plain) + (if combos@.len() > 0 {
        seq![(combos@[0], true)]
    } else {
        seq![]
    }));
    v
}

/// The types of the feed-forward block whose rate is measured: those asked
/// for, or the ones a model has; none where those asked for make no block.
pub fn rate_block(combos: &Vec<[u32; 3]>, only: bool) -> (t: Option<[u32; 3]>)
    ensures
        t == (if !only {
            Some([MM_Q5_K, MM_Q5_K, MM_Q6_K])
        } else if combos@.len() > 0 {
            Some(combos@[0])
        } else {
            None
        }),
{
    if !only {
        Some([MM_Q5_K, MM_Q5_K, MM_Q6_K])
    } else if combos.len() > 0 {
        Some(combos[0])
    } else {
        None
    }
}

impl Manner {
    /// How far apart the activation rows of `k` values are.
    pub open spec fn spec_stride(self, k: u64) -> int {
        (if self.half {
            k * 2
        } else {
            k * 4
        }) + self.pad
    }

    /// How far apart the activation rows of `k` values are. The rows are
    /// memory operands of the kernels, so their stride decides which sets of
    /// the first cache they land in.
    pub fn stride(&self, k: u64) -> (s: u64)
        requires
            k * 4 + self.pad <= u64::MAX,
        ensures
            s == self.spec_stride(k),
    {
        act_row_bytes(k, self.half) + self.pad
    }

    /// The descriptor of a multiply with the weights kept under `id`.
    pub open spec fn spec_multiply(self, id: u64, t: u32, s: Shape) -> Matmul {
        Matmul {
            a_id: id,
            a_type: t,
            b_type: if self.half {
                1
            } else {
                0
            },
            m: s.m,
            n: s.n,
            k: s.k,
            nb_a: weights::spec_row_bytes(t, s.k as int) as u64,
            nb_b: self.spec_stride(s.k) as u64,
            b_off: OFF_B,
            d_off: OFF_D,
            chunk: self.chunk,
            ..Matmul::zero()
        }
    }

    pub fn multiply(&self, id: u64, t: u32, s: Shape) -> (d: Matmul)
        requires
            s.k * 4 + self.pad <= u64::MAX,
        ensures
            d == self.spec_multiply(id, t, s),
    {
        Matmul {
            a_id: id,
            a_type: t,
            b_type: if self.half {
                1
            } else {
                0
            },
            m: s.m,
            n: s.n,
            k: s.k,
            nb_a: row_bytes(t, s.k),
            nb_b: self.stride(s.k),
            b_off: OFF_B,
            d_off: OFF_D,
            chunk: self.chunk,
            ..Matmul::nothing()
        }
    }

    /// The descriptor of a mixture of matrices of `m` rows of `k` weights.
    pub open spec fn spec_mixed(self, id: u64, t: u32, m: u64, k: u64, x: Mixture) -> Matmul {
        let n = x.n_used * x.n_tokens;
        Matmul {
            n: n as u64,
            nb_b: (Manner { pad: MIX_PAD, ..self }).spec_stride(k) as u64,
            n_used: x.n_used,
            n_tokens: x.n_tokens,
            b_rows: x.b_rows,
            ids_bytes: ((n * 4 + 63) / 64 * 64) as u64,
            ..self.spec_multiply(id, t, (Shape { m, k, n: 0 }))
        }
    }

    pub fn mixed(&self, id: u64, t: u32, m: u64, k: u64, x: Mixture) -> (d: Matmul)
        requires
            k * 4 + self.pad <= u64::MAX,
            k * 4 + MIX_PAD <= u64::MAX,
            x.n_used * x.n_tokens * 4 + 63 <= u64::MAX,
        ensures
            d == self.spec_mixed(id, t, m, k, x),
    {
        assert(x.n_used * x.n_tokens >= 0) by (nonlinear_arith);
        let n: u64 = x.n_used * x.n_tokens;
        let padded = Manner { half: self.half, pad: MIX_PAD, chunk: self.chunk };
        Matmul {
            n,
            nb_b: padded.stride(k),
            n_used: x.n_used,
            n_tokens: x.n_tokens,
            b_rows: x.b_rows,
            ids_bytes: ids_bytes(n),
            ..self.multiply(id, t, Shape { m, k, n: 0 })
        }
    }

    /// The descriptor of a feed-forward block: `rows` of the intermediate
    /// against `k`, `m_out` outputs, with gate, up and down kept under `id`
    /// and the two after it.
    pub open spec fn spec_block(
        self,
        id: u64,
        t: [u32; 3],
        k: u64,
        rows: u64,
        m_out: u64,
        n: u64,
        h16: bool,
    ) -> Ffn {
        Ffn {
            gate_id: id,
            up_id: (id + 1) as u64,
            down_id: (id + 2) as u64,
            gate_type: t[0],
            up_type: t[1],
            down_type: t[2],
            b_type: if self.half {
                1
            } else {
                0
            },
            rows,
            k,
            m_out,
            n,
            nb_gate: weights::spec_row_bytes(t[0], k as int) as u64,
            nb_up: weights::spec_row_bytes(t[1], k as int) as u64,
            nb_down: weights::spec_row_bytes(t[2], rows as int) as u64,
            nb_b: self.spec_stride(k) as u64,
            b_off: OFF_B,
            d_off: OFF_D,
            chunk: self.chunk,
            h_type: if h16 {
                1
            } else {
                0
            },
            pad: 0,
        }
    }

    pub fn block(
        &self,
        id: u64,
        t: [u32; 3],
        k: u64,
        rows: u64,
        m_out: u64,
        n: u64,
        h16: bool,
    ) -> (d: Ffn)
        requires
            id + 2 <= u64::MAX,
            k * 4 + self.pad <= u64::MAX,
            rows * 4 <= u64::MAX,
        ensures
            d == self.spec_block(id, t, k, rows, m_out, n, h16),
    {
        Ffn {
            gate_id: id,
            up_id: id + 1,
            down_id: id + 2,
            gate_type: t[0],
            up_type: t[1],
            down_type: t[2],
            b_type: if self.half {
                1
            } else {
                0
            },
            rows,
            k,
            m_out,
            n,
            nb_gate: row_bytes(t[0], k),
            nb_up: row_bytes(t[1], k),
            nb_down: row_bytes(t[2], rows),
            nb_b: self.stride(k),
            b_off: OFF_B,
            d_off: OFF_D,
            chunk: self.chunk,
            h_type: if h16 {
                1
            } else {
                0
            },
            pad: 0,
        }
    }
}

/// Every small multiply is one a card takes, when the activations' padding
/// keeps their rows on whole lines, and everything of it fits its area of the
/// window.
pub proof fn law_shapes_are_taken(t: u32, how: Manner, i: int)
    requires
        0 <= i < shapes_of(t).len(),
        how.pad % 64 == 0,
        how.pad <= 0x10_0000,
        weights::spec_row_bytes(t, 256) > 0,
    ensures
        ({
            let s = shapes_of(t)[i];
            let d = how.spec_multiply(1, t, s);
            &&& matmul::spec_shape_ok(t, s.k as int, d.nb_a as int, d.nb_b as int)
            &&& matmul::spec_round_up(s.m * d.nb_a) <= A_MAX
            &&& s.n * d.nb_b <= B_MAX
            &&& s.n * s.m * 4 <= D_MAX
        }),
{
    let s = shapes_of(t)[i];
    assert(s.k == 512 || (t == MM_Q8_0 && s.k == 544));
    assert(s.n == 1 || s.n == 4 || s.n == 8 || s.n == 13);
    weights::law_row_bytes(t, s.k as int);
    let nb = weights::spec_row_bytes(t, s.k as int);
    assert(nb <= 2176);
    assert(s.m * nb <= 61 * 2176) by (nonlinear_arith)
        requires
            s.m == 61,
            0 <= nb <= 2176,
    ;
    assert(how.spec_stride(s.k) % 64 == 0);
}

/// A mixture's column reads an activation row there is.
pub proof fn law_columns_have_rows(p: int, n_used: int, n_tokens: int, b_rows: int)
    requires
        n_used > 0,
        b_rows > 0,
        0 <= p < n_used * n_tokens,
    ensures
        0 <= (p % n_used) % b_rows + (p / n_used) * b_rows < b_rows * n_tokens,
{
    let t = p / n_used;
    let r = (p % n_used) % b_rows;
    assert(0 <= t < n_tokens) by (nonlinear_arith)
        requires
            t == p / n_used,
            n_used > 0,
            0 <= p < n_used * n_tokens,
    ;
    assert(0 <= r < b_rows);
    assert(0 <= t * b_rows && r + t * b_rows < b_rows * n_tokens) by (nonlinear_arith)
        requires
            0 <= t <= n_tokens - 1,
            0 <= r < b_rows,
    ;
}

/// Every small mixture's weights, activations with the indices before them,
/// and results fit their areas of the window.
pub proof fn law_mixtures_fit(t: u32, how: Manner, i: int)
    requires
        0 <= i < mixtures_of().len(),
    ensures
        ({
            let x = mixtures_of()[i];
            let d = how.spec_mixed(1, t, ROWS, 512, x);
            &&& matmul::spec_round_up(x.experts * ROWS * d.nb_a) <= A_MAX
            &&& d.ids_bytes + x.b_rows * x.n_tokens * d.nb_b <= B_MAX
            &&& d.n * ROWS * 4 <= D_MAX
        }),
{
    let x = mixtures_of()[i];
    weights::law_row_bytes(t, 512);
    let nb = weights::spec_row_bytes(t, 512);
    let stride = (Manner { pad: MIX_PAD, ..how }).spec_stride(512);
    assert(0 <= nb <= 2048 && 0 <= stride <= 2304);
    let (b, n, u) = (x.b_rows as int, x.n_tokens as int, x.n_used as int);
    assert(x.experts <= 8);
    assert((b == 1 && n == 1 && u == 3) || (b == 1 && n == 5 && u == 3) || (b == 3 && n == 5 && u == 3)
        || (b == 8 && n == 2 && u == 8) || (b == 1 && n == 32 && u == 2) || (b == 4 && n == 9 && u
        == 4));
    assert(0 <= b * n <= 36 && 0 <= u * n <= 64) by (nonlinear_arith)
        requires
            (b == 1 && n == 1 && u == 3) || (b == 1 && n == 5 && u == 3) || (b == 3 && n == 5 && u
                == 3) || (b == 8 && n == 2 && u == 8) || (b == 1 && n == 32 && u == 2) || (b == 4
                && n == 9 && u == 4),
    ;
    let e = x.experts * ROWS;
    let r = b * n;
    assert(e * nb <= 488 * 2048 && r * stride <= 36 * 2304) by (nonlinear_arith)
        requires
            0 <= e <= 488,
            0 <= nb <= 2048,
            0 <= r <= 36,
            0 <= stride <= 2304,
    ;
}

/// Where lane `i` of column `c` of `m` results is, in floats.
pub fn result_at(c: u64, m: u64, i: u64) -> (at: u64)
    requires
        c * m + i <= u64::MAX,
    ensures
        at == c * m + i,
{
    assert(c * m >= 0) by (nonlinear_arith);
    c * m + i
}

/// The SwiGLU of `m` values, as the card is asked for it: one input,
/// and the other `nb` bytes further on.
pub fn swiglu_request(m: u64, nb: u64, mode: u32) -> (d: Matmul)
    ensures
        d == (Matmul {
            a_type: MM_SWIGLU,
            b_type: mode,
            m,
            n: 1,
            k: 16,
            nb_b: nb,
            b_off: OFF_B,
            d_off: OFF_D,
            ..Matmul::zero()
        }),
{
    Matmul {
        a_type: MM_SWIGLU,
        b_type: mode,
        m,
        n: 1,
        k: 16,
        nb_b: nb,
        b_off: OFF_B,
        d_off: OFF_D,
        ..Matmul::nothing()
    }
}

/// The instruction probe, as the card is asked for it.
pub fn probe_request(half: bool) -> (d: Matmul)
    ensures
        d == (Matmul {
            a_off: OFF_A,
            a_type: MM_PROBE,
            b_type: if half {
                1
            } else {
                0
            },
            m: 1,
            n: 1,
            k: 1,
            b_off: OFF_B,
            d_off: OFF_D,
            ..Matmul::zero()
        }),
{
    Matmul {
        a_off: OFF_A,
        a_type: MM_PROBE,
        b_type: if half {
            1
        } else {
            0
        },
        m: 1,
        n: 1,
        k: 1,
        b_off: OFF_B,
        d_off: OFF_D,
        ..Matmul::nothing()
    }
}

/// Whether the card is to write lane `i` of `m` in the partial SwiGLU: its
/// ranges start and end inside vectors, and leave out the first three lanes
/// and the last five.
#[verifier::allow_in_spec]
pub fn covered(i: usize, m: usize) -> bool
    returns
        (3 <= i && i < m - 5),
{
    m >= 5 && 3 <= i && i < m - 5
}

/// The lanes before `n` that the card was to leave as `fill` and did not.
pub open spec fn strays_upto(lanes: Seq<u32>, fill: u32, n: int) -> Seq<usize>
    decreases n,
{
    if n <= 0 {
        seq![]
    } else {
        let before = strays_upto(lanes, fill, n - 1);
        if !covered((n - 1) as usize, lanes.len() as usize) && lanes[n - 1] != fill {
            before.push((n - 1) as usize)
        } else {
            before
        }
    }
}

/// The lanes that the card was to leave as `fill` and did not, in order.
pub fn strays(lanes: &[u32], fill: u32) -> (v: Vec<usize>)
    ensures
        v@ == strays_upto(lanes@, fill, lanes@.len() as int),
{
    let m: usize = lanes.len();
    let mut v: Vec<usize> = Vec::new();
    for i in 0..m
        invariant
            m == lanes@.len(),
            v@ == strays_upto(lanes@, fill, i as int),
    {
        if !covered(i, m) && lanes[i] != fill {
            v.push(i);
        }
    }
    v
}

/// There is no stray write just where every lane outside the ranges is as it
/// was filled.
pub proof fn law_no_stray(lanes: Seq<u32>, fill: u32)
    requires
        lanes.len() <= usize::MAX,
    ensures
        strays_upto(lanes, fill, lanes.len() as int).len() == 0 <==> forall|i: int|
            0 <= i < lanes.len() && !(3 <= i < lanes.len() - 5) ==> #[trigger] lanes[i] == fill,
{
    lemma_no_stray(lanes, fill, lanes.len() as int);
}

proof fn lemma_no_stray(lanes: Seq<u32>, fill: u32, n: int)
    requires
        0 <= n <= lanes.len() <= usize::MAX,
    ensures
        strays_upto(lanes, fill, n).len() == 0 <==> forall|i: int|
            0 <= i < n && !(3 <= i < lanes.len() - 5) ==> #[trigger] lanes[i] == fill,
    decreases n,
{
    if n > 0 {
        lemma_no_stray(lanes, fill, n - 1);
        let was = strays_upto(lanes, fill, n - 1);
        assert(was.push((n - 1) as usize).len() > 0);
        assert(lanes[n - 1] == lanes[n - 1]);
    }
}

/// The dwords that `b` holds.
pub fn words32(b: &[u8]) -> (v: Vec<u32>)
    ensures
        v@ == Seq::new((b@.len() / 4) as nat, |i: int| bits::word32(b@, 4 * i)),
{
    let m: usize = b.len();
    let n: usize = m / 4;
    let mut v: Vec<u32> = Vec::new();
    for i in 0..n
        invariant
            m == b@.len(),
            n == m / 4,
            v@.len() == i,
            forall|j: int| 0 <= j < i ==> #[trigger] v@[j] == bits::word32(b@, 4 * j),
    {
        v.push(get_le32(b, 4 * i));
    }
    assert(v@ =~= Seq::new(n as nat, |i: int| bits::word32(b@, 4 * i)));
    v
}

/// The qwords that `b` holds.
pub fn words64(b: &[u8]) -> (v: Vec<u64>)
    ensures
        v@ == Seq::new((b@.len() / 8) as nat, |i: int| bits::word64(b@, 8 * i)),
{
    let m: usize = b.len();
    let n: usize = m / 8;
    let mut v: Vec<u64> = Vec::new();
    for i in 0..n
        invariant
            m == b@.len(),
            n == m / 8,
            v@.len() == i,
            forall|j: int| 0 <= j < i ==> #[trigger] v@[j] == bits::word64(b@, 8 * j),
    {
        v.push(get_le64(b, 8 * i));
    }
    assert(v@ =~= Seq::new(n as nat, |i: int| bits::word64(b@, 8 * i)));
    v
}

} // verus!
