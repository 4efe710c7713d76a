//! What a card answers to a request, and that it is what the caller asked
//! for: every number a card sends back is the one the caller's own tensors
//! give.
use crate::bits;
use crate::ggml::ffn;
use crate::ggml::ffn::{FfnArgs, QK};
use crate::ggml::share;
use crate::ggml::share::{Multiply, Pending};
use crate::vpu::matmul;
use crate::vpu::matmul::{D_MAX, OFF_B, OFF_D};
use crate::vpu::proto::{Ffn, Matmul, MM_F16, MM_F32};
use crate::vpu::weights;
use crate::vpu::weights::{block_bytes, block_weights, quantized};
use vstd::prelude::*;

verus! {

/// The type of the activations: float16 or float32.
pub open spec fn half_type(half: bool) -> u32 {
    if half {
        1
    } else {
        0
    }
}

/// Memory, byte by byte.
pub type Bytes = spec_fn(int) -> u8;

/// What a card has: the bytes it keeps under every id, and its window.
pub struct Holdings {
    pub kept: spec_fn(u64) -> Bytes,
    pub window: Bytes,
}

/// How numbers are read from memory: a weight of a type from the bytes of
/// its block and its place in the block, an activation from its own bytes.
pub struct Reading {
    pub weight: spec_fn(u32, Seq<u8>, int) -> real,
    pub number: spec_fn(Seq<u8>) -> real,
}

/// The `n` bytes at `a`.
pub open spec fn piece(mem: Bytes, a: int, n: nat) -> Seq<u8> {
    Seq::new(n, |j: int| mem(a + j))
}

/// How many weights a block of a type holds.
pub open spec fn in_block(t: u32) -> int {
    if t == MM_F32 || t == MM_F16 {
        1
    } else {
        block_weights(t) as int
    }
}

/// The bytes of a block of a type.
pub open spec fn of_block(t: u32) -> int {
    if t == MM_F32 {
        4
    } else if t == MM_F16 {
        2
    } else {
        block_bytes(t) as int
    }
}

impl Reading {
    /// Weight `i` of the row of type `t` at `row`.
    pub open spec fn element(self, t: u32, mem: Bytes, row: int, i: int) -> real {
        (self.weight)(
            t,
            piece(mem, row + i / in_block(t) * of_block(t), of_block(t) as nat),
            i % in_block(t),
        )
    }

    /// Activation `i` of the row at `row`, as float16 or float32.
    pub open spec fn activation(self, b_type: u32, mem: Bytes, row: int, i: int) -> real {
        let size: nat = if b_type == 1 {
            2
        } else {
            4
        };
        (self.number)(piece(mem, row + i * size, size))
    }
}

/// The sum of the first `n` values of `f`.
pub open spec fn sum(f: spec_fn(int) -> real, n: int) -> real
    decreases n,
{
    if n <= 0 {
        0int as real
    } else {
        sum(f, n - 1) + f(n - 1)
    }
}

/// Sums of the same values are the same.
pub proof fn lemma_sum(f: spec_fn(int) -> real, g: spec_fn(int) -> real, n: int)
    requires
        forall|i: int| 0 <= i < n ==> #[trigger] f(i) == g(i),
    ensures
        sum(f, n) == sum(g, n),
    decreases n,
{
    if n > 0 {
        lemma_sum(f, g, n - 1);
        assert(f(n - 1) == g(n - 1));
    }
}

impl Matmul {
    /// The expert that column `p` names.
    pub open spec fn expert(self, c: Holdings, p: int) -> int {
        if self.n_used > 0 {
            bits::word32(piece(c.window, self.b_off + 4 * p, 4), 0) as int
        } else {
            0
        }
    }

    /// The activation row of column `p`.
    pub open spec fn column(self, p: int) -> int {
        if self.n_used > 0 {
            (p % self.n_used as int) % self.b_rows as int + (p / self.n_used as int) * self.b_rows
        } else {
            p
        }
    }

    /// What a card computes for row `r` and column `p` of a request.
    pub open spec fn answer(self, rd: Reading, c: Holdings, r: int, p: int) -> real {
        sum(
            |i: int|
                rd.element(
                    self.a_type,
                    (c.kept)(self.a_id),
                    self.expert(c, p) * (self.m * self.nb_a) + r * self.nb_a,
                    i,
                ) * rd.activation(
                    self.b_type,
                    c.window,
                    self.b_off + self.ids_bytes + self.column(p) * self.nb_b,
                    i,
                ),
            self.k as int,
        )
    }

    /// Where a card leaves it in the window.
    pub open spec fn place(self, r: int, p: int) -> int {
        self.d_off + (p * self.m + r) * 4
    }
}

/// What the caller multiplies: the weight tensor's bytes, and for every
/// column its expert and its activation row.
pub struct Operands {
    pub weights: Bytes,
    pub expert: spec_fn(int) -> int,
    pub x: spec_fn(int, int) -> real,
}

impl Multiply {
    /// The activation row that column `p` multiplies: a token's columns
    /// share its rows in turn.
    pub open spec fn column(self, p: int) -> int {
        if self.n_used > 0 {
            (p % self.n_used as int) % self.b_rows as int + (p / self.n_used as int) * self.b_rows
        } else {
            p
        }
    }

    /// The multiply's own result for row `r` of the weights and column `p`:
    /// the product over all `k` elements.
    pub open spec fn result(self, rd: Reading, o: Operands, r: int, p: int) -> real {
        sum(
            |i: int|
                rd.element(
                    self.a_type,
                    o.weights,
                    ((o.expert)(p) * self.m + r) * self.nb_a,
                    i,
                ) * (o.x)(self.column(p), i),
            self.k as int,
        )
    }

    /// Whether a card keeps rows `lo` to `lo + run` of every matrix under an
    /// id, one matrix after another.
    pub open spec fn uploaded(self, c: Holdings, id: u64, o: Operands, lo: int, run: int) -> bool {
        forall|e: int, r: int, j: int|
            #![trigger (c.kept)(id)(e * (run * self.nb_a) + r * self.nb_a + j)]
            0 <= e < self.experts && 0 <= r < run && 0 <= j < self.nb_a ==> (c.kept)(id)(
                e * (run * self.nb_a) + r * self.nb_a + j,
            ) == (o.weights)((e * self.m + lo + r) * self.nb_a + j)
    }

    /// Whether a card's window has the activations, as float16 or float32,
    /// after the column indices of a mixture.
    pub open spec fn staged(self, rd: Reading, c: Holdings, o: Operands, half: bool) -> bool {
        &&& forall|row: int, i: int|
            0 <= i < self.k ==> #[trigger] rd.activation(
                half_type(half),
                c.window,
                OFF_B + self.spec_ids() + row * self.spec_stride(half),
                i,
            ) == (o.x)(row, i)
        &&& forall|p: int|
            0 <= p < self.n && self.mixture() ==> #[trigger] (o.expert)(p) == bits::word32(
                piece(c.window, OFF_B + 4 * p, 4),
                0,
            )
        &&& forall|p: int|
            0 <= p < self.n ==> 0 <= #[trigger] (o.expert)(p) < self.experts && (!self.mixture()
                ==> (o.expert)(p) == 0)
    }
}

/// The weights of a row end before the next row begins.
proof fn lemma_in_row(t: u32, k: int, nb: int, i: int)
    requires
        matmul::spec_shape_ok(t, k, nb, 0) || quantized(t) && k % block_weights(t) as int == 0
            && nb >= weights::spec_row_bytes(t, k),
        0 <= i < k,
    ensures
        0 <= i / in_block(t) * of_block(t),
        i / in_block(t) * of_block(t) + of_block(t) <= nb,
{
    let w = in_block(t);
    let b = of_block(t);
    let n = k / w;
    let q = i / w;
    if t == MM_F32 || t == MM_F16 {
    } else {
        assert(k == n * w) by (nonlinear_arith)
            requires
                n == k / w,
                k % w == 0,
                w > 0,
        ;
        assert(0 <= q < n) by (nonlinear_arith)
            requires
                q == i / w,
                k == n * w,
                0 <= i < k,
                w > 0,
        ;
        assert(q * b + b <= n * b) by (nonlinear_arith)
            requires
                q < n,
                b > 0,
        ;
        assert(0 <= q * b) by (nonlinear_arith)
            requires
                q >= 0,
                b > 0,
        ;
        assert(n * b == weights::spec_row_bytes(t, k));
    }
}

/// Two rows with the same bytes hold the same weights.
proof fn lemma_same_row(rd: Reading, t: u32, k: int, nb: int, a: Bytes, ra: int, b: Bytes, rb: int, i: int)
    requires
        matmul::spec_shape_ok(t, k, nb, 0) || quantized(t) && k % block_weights(t) as int == 0
            && nb >= weights::spec_row_bytes(t, k),
        forall|j: int| 0 <= j < nb ==> #[trigger] a(ra + j) == b(rb + j),
        0 <= i < k,
    ensures
        rd.element(t, a, ra, i) == rd.element(t, b, rb, i),
{
    lemma_in_row(t, k, nb, i);
    let at = i / in_block(t) * of_block(t);
    let n = of_block(t) as nat;
    assert forall|j: int| 0 <= j < n implies #[trigger] a(ra + at + j) == b(
        rb + at + j,
    ) by {
        assert(a(ra + (at + j)) == b(rb + (at + j)));
    }
    assert(piece(a, ra + at, n) =~= piece(b, rb + at, n));
}

/// What a card answers to the request for its part is the caller's multiply:
/// row `r` of the request, column `p`, is the product over all `k` elements
/// of row `lo + r` of the weights and the column's activations, and it is
/// left where the caller looks for it.
pub proof fn law_answer_is_the_product(
    mul: Multiply,
    id: u64,
    lo: int,
    run: int,
    rows: u64,
    half: bool,
    rd: Reading,
    c: Holdings,
    o: Operands,
    r: int,
    p: int,
)
    requires
        mul.wf(),
        share::spec_supports(
            mul.a_type,
            mul.m as int,
            mul.k as int,
            mul.nb_a as int,
            mul.nb_b as int,
            mul.n as int,
        ),
        0 <= r < rows <= run,
        0 <= lo,
        lo + run <= mul.m,
        mul.mixture() ==> rows == run,
        0 <= p < mul.n,
        mul.uploaded(c, id, o, lo, run),
        mul.staged(rd, c, o, half),
    ensures
        mul.spec_descriptor(id, rows, half).answer(rd, c, r, p) == mul.result(rd, o, lo + r, p),
        mul.spec_descriptor(id, rows, half).place(r, p) == (Pending {
            seq: 0,
            lo: lo as u64,
            rows,
            cols: mul.n,
            n_used: mul.n_used,
        }).spec_from(p) + r * 4,
        mul.spec_descriptor(id, rows, half).n == mul.n,
{
    let d = mul.spec_descriptor(id, rows, half);
    let e = (o.expert)(p);
    let nb = mul.nb_a as int;
    let kept = (c.kept)(id);
    assert(d.expert(c, p) == e);
    assert(d.column(p) == mul.column(p));
    let ra = e * (rows * nb) + r * nb;
    assert(e * (rows * nb) == e * (run * nb)) by (nonlinear_arith)
        requires
            e == 0 || rows == run,
    ;
    let rb = (e * mul.m + (lo + r)) * nb;
    assert forall|j: int| 0 <= j < nb implies #[trigger] kept(ra + j) == (o.weights)(rb + j) by {
        assert((c.kept)(id)(e * (run * mul.nb_a) + r * mul.nb_a + j) == (o.weights)(
            (e * mul.m + lo + r) * mul.nb_a + j,
        ));
    }
    let at = OFF_B + mul.spec_ids() + mul.column(p) * mul.spec_stride(half);
    let f = |i: int|
        rd.element(
            d.a_type,
            (c.kept)(d.a_id),
            d.expert(c, p) * (d.m * d.nb_a) + r * d.nb_a,
            i,
        ) * rd.activation(d.b_type, c.window, d.b_off + d.ids_bytes + d.column(p) * d.nb_b, i);
    let g = |i: int|
        rd.element(mul.a_type, o.weights, ((o.expert)(p) * mul.m + (lo + r)) * mul.nb_a, i) * (o.x)(
            mul.column(p),
            i,
        );
    assert(mul.spec_stride(half) <= u64::MAX);
    assert(0 <= mul.spec_ids() <= u64::MAX);
    assert forall|i: int| 0 <= i < mul.k implies #[trigger] f(i) == g(i) by {
        lemma_same_row(rd, mul.a_type, mul.k as int, nb, kept, ra, o.weights, rb, i);
        assert(rd.activation(half_type(half), c.window, at, i) == (o.x)(mul.column(p), i));
    }
    lemma_sum(f, g, mul.k as int);
    assert(d.answer(rd, c, r, p) == sum(f, mul.k as int));
    assert(mul.result(rd, o, lo + r, p) == sum(g, mul.k as int));
    assert((p * rows + r) * 4 == p * rows * 4 + r * 4);
}

/// The request for a card's part of a multiply that the cards take is one a
/// card takes: whole rows of the request's own type and length, room for
/// them between one row and the next, and the same of the activations.
pub proof fn law_request_is_taken(mul: Multiply, id: u64, rows: u64, half: bool)
    requires
        mul.wf(),
        share::spec_supports(
            mul.a_type,
            mul.m as int,
            mul.k as int,
            mul.nb_a as int,
            mul.nb_b as int,
            mul.n as int,
        ),
        mul.nb_b >= mul.k * 4,
        rows <= mul.m,
    ensures
        ({
            let d = mul.spec_descriptor(id, rows, half);
            &&& matmul::spec_shape_ok(d.a_type, d.k as int, d.nb_a as int, d.nb_b as int)
            &&& quantized(d.a_type) ==> weights::spec_row_bytes(d.a_type, d.k as int) <= d.nb_a
            &&& d.nb_b >= d.k * (if d.b_type == 1 {
                2int
            } else {
                4int
            })
            &&& d.n * d.m * 4 <= D_MAX
            &&& d.d_off == OFF_D
        }),
{
    assert(mul.n * rows <= mul.n * mul.m) by (nonlinear_arith)
        requires
            rows <= mul.m,
    ;
}

impl Ffn {
    /// What a card computes of the intermediate: row `j` for column `p`.
    pub open spec fn hidden(
        self,
        rd: Reading,
        silu: spec_fn(real) -> real,
        c: Holdings,
        j: int,
        p: int,
    ) -> real {
        let x = |i: int| rd.activation(self.b_type, c.window, self.b_off + p * self.nb_b, i);
        let gate = sum(
            |i: int|
                rd.element(self.gate_type, (c.kept)(self.gate_id), j * self.nb_gate, i) * x(i),
            self.k as int,
        );
        let up = sum(
            |i: int| rd.element(self.up_type, (c.kept)(self.up_id), j * self.nb_up, i) * x(i),
            self.k as int,
        );
        silu(gate) * up
    }

    /// What a card computes for output row `o` and column `p`: its part of
    /// the down projection, over the rows it was asked for.
    pub open spec fn answer(
        self,
        rd: Reading,
        silu: spec_fn(real) -> real,
        c: Holdings,
        o: int,
        p: int,
    ) -> real {
        sum(
            |j: int|
                rd.element(self.down_type, (c.kept)(self.down_id), o * self.nb_down, j)
                    * self.hidden(rd, silu, c, j, p),
            self.rows as int,
        )
    }
}

/// The block's tensors, and its activations.
pub struct Tensors {
    pub gate: Bytes,
    pub up: Bytes,
    pub down: Bytes,
    pub x: spec_fn(int, int) -> real,
}

impl FfnArgs {
    /// Row `j` of the block's intermediate for column `p`.
    pub open spec fn hidden(
        self,
        rd: Reading,
        silu: spec_fn(real) -> real,
        t: Tensors,
        j: int,
        p: int,
    ) -> real {
        let gate = sum(
            |i: int| rd.element(self.gate_type, t.gate, j * self.nb_gate, i) * (t.x)(p, i),
            self.k as int,
        );
        let up = sum(
            |i: int| rd.element(self.up_type, t.up, j * self.nb_up, i) * (t.x)(p, i),
            self.k as int,
        );
        silu(gate) * up
    }

    /// The part of output row `o` for column `p` that rows `lo` to
    /// `lo + rows` of the intermediate give.
    pub open spec fn partial(
        self,
        rd: Reading,
        silu: spec_fn(real) -> real,
        t: Tensors,
        lo: int,
        rows: int,
        o: int,
        p: int,
    ) -> real {
        sum(
            |j: int|
                rd.element(self.down_type, t.down, o * self.nb_down, lo + j) * self.hidden(
                    rd,
                    silu,
                    t,
                    lo + j,
                    p,
                ),
            rows,
        )
    }

    /// Whether a card keeps the run `lo` to `lo + run` of the intermediate:
    /// those rows of gate and up, and those columns of down, each row of
    /// which is cut to them.
    pub open spec fn uploaded(
        self,
        c: Holdings,
        ids: [u64; 3],
        t: Tensors,
        lo: int,
        run: int,
    ) -> bool {
        &&& forall|j: int|
            0 <= j < run * self.nb_gate ==> #[trigger] (c.kept)(ids[0])(j) == (t.gate)(
                lo * self.nb_gate + j,
            )
        &&& forall|j: int|
            0 <= j < run * self.nb_up ==> #[trigger] (c.kept)(ids[1])(j) == (t.up)(
                lo * self.nb_up + j,
            )
        &&& forall|o: int, j: int|
            #![trigger (c.kept)(ids[2])(o * weights::spec_row_bytes(self.down_type, run) + j)]
            0 <= o < self.m_out && 0 <= j < weights::spec_row_bytes(self.down_type, run)
                ==> (c.kept)(ids[2])(o * weights::spec_row_bytes(self.down_type, run) + j) == (
            t.down)(o * self.nb_down + weights::spec_row_bytes(self.down_type, lo) + j)
    }

    /// Whether a card's window has the activations, as float16 or float32.
    pub open spec fn staged(self, rd: Reading, c: Holdings, t: Tensors, half: bool) -> bool {
        forall|p: int, i: int|
            0 <= i < self.k ==> #[trigger] rd.activation(
                half_type(half),
                c.window,
                OFF_B + p * self.spec_stride(half),
                i,
            ) == (t.x)(p, i)
    }
}

/// Weight `lo + j` of a row is weight `j` of what is left of it from `lo`
/// on, where the row is cut between blocks.
proof fn lemma_cut(rd: Reading, t: u32, mem: Bytes, row: int, lo: int, j: int)
    requires
        quantized(t),
        0 <= lo,
        lo % QK as int == 0,
        0 <= j,
    ensures
        rd.element(t, mem, row, lo + j) == rd.element(
            t,
            mem,
            row + weights::spec_row_bytes(t, lo),
            j,
        ),
{
    let w = in_block(t);
    let b = of_block(t);
    let n = lo / w;
    assert(lo == n * w);
    assert((lo + j) / w == n + j / w && (lo + j) % w == j % w) by (nonlinear_arith)
        requires
            lo == n * w,
            w > 0,
            j >= 0,
    ;
    assert((n + j / w) * b == n * b + j / w * b) by (nonlinear_arith);
    assert(n * b == weights::spec_row_bytes(t, lo));
}

/// A projection's rows, one after another from a byte of the tensor on.
proof fn lemma_projection(
    rd: Reading,
    t: u32,
    k: int,
    nb: int,
    kept: Bytes,
    tensor: Bytes,
    lo: int,
    run: int,
    j: int,
    xa: spec_fn(int) -> real,
    xb: spec_fn(int) -> real,
)
    requires
        quantized(t),
        k % block_weights(t) as int == 0,
        nb >= weights::spec_row_bytes(t, k),
        0 <= j < run,
        forall|i: int| 0 <= i < run * nb ==> #[trigger] kept(i) == tensor(lo * nb + i),
        forall|i: int| 0 <= i < k ==> #[trigger] xa(i) == xb(i),
    ensures
        sum(|i: int| rd.element(t, kept, j * nb, i) * xa(i), k) == sum(
            |i: int| rd.element(t, tensor, (lo + j) * nb, i) * xb(i),
            k,
        ),
{
    let f = |i: int| rd.element(t, kept, j * nb, i) * xa(i);
    let g = |i: int| rd.element(t, tensor, (lo + j) * nb, i) * xb(i);
    assert((lo + j) * nb == lo * nb + j * nb) by (nonlinear_arith);
    assert forall|i: int| 0 <= i < k implies #[trigger] f(i) == g(i) by {
        assert forall|q: int| 0 <= q < nb implies #[trigger] kept(j * nb + q) == tensor(
            (lo + j) * nb + q,
        ) by {
            assert(0 <= j * nb + q < run * nb) by (nonlinear_arith)
                requires
                    0 <= j < run,
                    0 <= q < nb,
            ;
        }
        lemma_same_row(rd, t, k, nb, kept, j * nb, tensor, (lo + j) * nb, i);
        assert(xa(i) == xb(i));
    }
    lemma_sum(f, g, k);
}

/// What a card answers to the request for its run of a block is the part of
/// the block's output that the run's rows give: of each projection, the
/// weights that were uploaded, read in the type they were uploaded in.
pub proof fn law_answer_is_the_block(
    b: FfnArgs,
    ids: [u64; 3],
    lo: int,
    run: u64,
    rows: u64,
    half: bool,
    h16: bool,
    rd: Reading,
    silu: spec_fn(real) -> real,
    c: Holdings,
    t: Tensors,
    o: int,
    p: int,
)
    requires
        b.wf(),
        b.spec_takes(),
        0 <= lo,
        lo + run <= b.inter,
        lo % QK as int == 0,
        run % QK == 0,
        rows <= run,
        0 <= o < b.m_out,
        0 <= p < b.n,
        b.uploaded(c, ids, t, lo, run as int),
        b.staged(rd, c, t, half),
    ensures
        ffn::spec_request(b, ids, run, rows, half, h16).answer(rd, silu, c, o, p) == b.partial(
            rd,
            silu,
            t,
            lo,
            rows as int,
            o,
            p,
        ),
        ffn::spec_request(b, ids, run, rows, half, h16).m_out == b.m_out,
        ffn::spec_request(b, ids, run, rows, half, h16).n == b.n,
        ffn::spec_request(b, ids, run, rows, half, h16).d_off == OFF_D,
{
    let f = ffn::spec_request(b, ids, run, rows, half, h16);
    let rb = weights::spec_row_bytes(b.down_type, run as int);
    lemma_down_stride(b, run);
    let kept = (c.kept)(ids[2]);
    let fa = |j: int|
        rd.element(f.down_type, (c.kept)(f.down_id), o * f.nb_down, j) * f.hidden(rd, silu, c, j, p);
    let ga = |j: int|
        rd.element(b.down_type, t.down, o * b.nb_down, lo + j) * b.hidden(rd, silu, t, lo + j, p);
    assert forall|j: int| 0 <= j < rows implies #[trigger] fa(j) == ga(j) by {
        let xa = |i: int| rd.activation(f.b_type, c.window, f.b_off + p * f.nb_b, i);
        let xb = |i: int| (t.x)(p, i);
        assert forall|i: int| 0 <= i < b.k implies #[trigger] xa(i) == xb(i) by {
            assert(rd.activation(
                half_type(half),
                c.window,
                OFF_B + p * b.spec_stride(half),
                i,
            ) == (t.x)(p, i));
        }
        lemma_projection(
            rd,
            b.gate_type,
            b.k as int,
            b.nb_gate as int,
            (c.kept)(ids[0]),
            t.gate,
            lo,
            run as int,
            j,
            xa,
            xb,
        );
        lemma_projection(
            rd,
            b.up_type,
            b.k as int,
            b.nb_up as int,
            (c.kept)(ids[1]),
            t.up,
            lo,
            run as int,
            j,
            xa,
            xb,
        );
        lemma_hidden(f, b, rd, silu, c, t, lo, j, p, xa, xb);
        lemma_cut(rd, b.down_type, t.down, o * b.nb_down, lo, j);
        let part = o * b.nb_down + weights::spec_row_bytes(b.down_type, lo);
        assert forall|q: int| 0 <= q < rb implies #[trigger] kept(o * rb + q) == (t.down)(
            part + q,
        ) by {}
        lemma_same_row(rd, b.down_type, run as int, rb, kept, o * rb, t.down, part, j);
    }
    lemma_sum(fa, ga, rows as int);
    assert(f.answer(rd, silu, c, o, p) == sum(fa, rows as int));
    assert(b.partial(rd, silu, t, lo, rows as int, o, p) == sum(ga, rows as int));
}

/// One row of the intermediate, from its two projections.
proof fn lemma_hidden(
    f: Ffn,
    b: FfnArgs,
    rd: Reading,
    silu: spec_fn(real) -> real,
    c: Holdings,
    t: Tensors,
    lo: int,
    j: int,
    p: int,
    xa: spec_fn(int) -> real,
    xb: spec_fn(int) -> real,
)
    requires
        f.k == b.k,
        xa == (|i: int| rd.activation(f.b_type, c.window, f.b_off + p * f.nb_b, i)),
        xb == (|i: int| (t.x)(p, i)),
        sum(
            |i: int| rd.element(f.gate_type, (c.kept)(f.gate_id), j * f.nb_gate, i) * xa(i),
            b.k as int,
        ) == sum(
            |i: int| rd.element(b.gate_type, t.gate, (lo + j) * b.nb_gate, i) * xb(i),
            b.k as int,
        ),
        sum(
            |i: int| rd.element(f.up_type, (c.kept)(f.up_id), j * f.nb_up, i) * xa(i),
            b.k as int,
        ) == sum(|i: int| rd.element(b.up_type, t.up, (lo + j) * b.nb_up, i) * xb(i), b.k as int),
    ensures
        f.hidden(rd, silu, c, j, p) == b.hidden(rd, silu, t, lo + j, p),
{
    let g1 = |i: int| rd.element(b.gate_type, t.gate, (lo + j) * b.nb_gate, i) * xb(i);
    let g2 = |i: int| rd.element(b.gate_type, t.gate, (lo + j) * b.nb_gate, i) * (t.x)(p, i);
    lemma_sum(g1, g2, b.k as int);
    let u1 = |i: int| rd.element(b.up_type, t.up, (lo + j) * b.nb_up, i) * xb(i);
    let u2 = |i: int| rd.element(b.up_type, t.up, (lo + j) * b.nb_up, i) * (t.x)(p, i);
    lemma_sum(u1, u2, b.k as int);
}

/// The bytes of a run's part of a down row are no more than a row's.
proof fn lemma_down_stride(b: FfnArgs, run: u64)
    requires
        b.spec_takes(),
        run <= b.inter,
        run % QK == 0,
    ensures
        0 <= weights::spec_row_bytes(b.down_type, run as int) <= b.nb_down,
{
    let w = in_block(b.down_type);
    let s = of_block(b.down_type);
    let n = run as int / w;
    let m = b.inter as int / w;
    assert(0 <= n <= m);
    assert(0 <= n * s <= m * s) by (nonlinear_arith)
        requires
            0 <= n <= m,
            s > 0,
    ;
}

/// Each projection of a request has the type, the id and the row stride of
/// one tensor of the block: the rows of gate and up have room for `k` weights
/// of their type, a row of down is exactly the run's weights of its type, and
/// what was uploaded under each id is whole rows of that stride.
pub proof fn law_request_is_of_one_block(
    b: FfnArgs,
    ids: [u64; 3],
    run: u64,
    rows: u64,
    half: bool,
    h16: bool,
)
    requires
        b.wf(),
        b.spec_takes(),
        run <= b.inter,
        run % QK == 0,
        rows <= run,
    ensures
        ({
            let f = ffn::spec_request(b, ids, run, rows, half, h16);
            &&& quantized(f.gate_type) && quantized(f.up_type) && quantized(f.down_type)
            &&& f.nb_gate >= weights::spec_row_bytes(f.gate_type, f.k as int)
            &&& f.nb_up >= weights::spec_row_bytes(f.up_type, f.k as int)
            &&& f.nb_down == weights::spec_row_bytes(f.down_type, run as int)
            &&& b.spec_parts(run as int) == (
                (run * f.nb_gate) as int,
                (run * f.nb_up) as int,
                (f.m_out * f.nb_down) as int,
            )
            &&& (f.gate_id, f.up_id, f.down_id) == (ids[0], ids[1], ids[2])
        }),
{
    lemma_down_stride(b, run);
}

} // verus!
