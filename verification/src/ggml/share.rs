//! Which multiplies the cards take part in, and with which rows. The caller
//! measures, converts and copies; everything that is decided from what it
//! found is decided here. Shares are fractions, so the caller rounds them to
//! rows and hands those in.
use crate::ggml::judge;
use crate::ggml::judge::Compared;
use crate::ggml::plan;
use crate::ggml::plan::{whole, Slice, Split};
use crate::vpu::matmul;
use crate::vpu::matmul::{ids_bytes, shape_ok, B_MAX, D_MAX, OFF_B, OFF_D};
use crate::vpu::proto::{Matmul, MM_F16, MM_F32};
use std::collections::{HashMap, HashSet};
use vstd::prelude::*;

verus! {

broadcast use vstd::std_specs::hash::group_hash_axioms;

/// Bytes added to the activation row stride in the card's window. The rows
/// are memory operands of the card's kernels, and its L1 has 64 sets: at
/// k 5120 the stride is 5 x 4096, so eight rows take the same sets and the
/// eight-row kernels run at a quarter of their instruction count. A quarter
/// of a page apart, they do not. It keeps the 64-byte alignment the operands
/// need.
pub const B_PAD: u64 = 256;

/// How many times the batch share may be moved before it is left alone.
pub const PP_STEPS: u32 = 24;

/// Batch calls averaged before the share is moved once.
pub const PP_WINDOW: u32 = 8;

/// A multiply as the caller describes it: `d[n][m] = a[m][k] . b[n][k]`, or,
/// with `n_used` nonzero, a mixture: `a` holds `experts` matrices, there are
/// `n_used` columns to each of `n_tokens` tokens, and a token has `b_rows`
/// activation rows.
#[derive(Clone, Copy, PartialEq, Eq, Structural, Debug)]
pub struct Multiply {
    /// The weight tensor's address.
    pub key: usize,
    pub a_type: u32,
    pub m: u64,
    pub k: u64,
    pub nb_a: u64,
    /// Whether the tensor does not change.
    pub keep: bool,
    pub n: u64,
    pub nb_b: u64,
    pub experts: u64,
    pub n_used: u64,
    pub n_tokens: u64,
    pub b_rows: u64,
}

impl Multiply {
    /// Its tensors fit a machine's memory, and it has a matrix and, per
    /// token, an activation row.
    pub open spec fn wf(self) -> bool {
        &&& self.experts >= 1
        &&& self.b_rows >= 1
        &&& self.m * self.nb_a * self.experts <= u64::MAX
        &&& self.k * 4 + B_PAD <= u64::MAX
        &&& self.nb_b + B_PAD <= u64::MAX
        &&& self.n * 4 + 63 <= u64::MAX
        &&& self.b_rows * self.n_tokens <= u64::MAX
    }

    pub open spec fn spec_mixture(&self) -> bool {
        self.n_used > 0
    }

    /// Whether it is a mixture of experts.
    #[verifier::when_used_as_spec(spec_mixture)]
    pub fn mixture(&self) -> (r: bool)
        ensures
            r == self.spec_mixture(),
    {
        self.n_used > 0
    }

    /// Bytes of the activation area that a mixture's column indices take.
    pub open spec fn spec_ids(self) -> int {
        if self.mixture() {
            (self.n * 4 + 63) / 64 * 64
        } else {
            0
        }
    }

    /// The activation rows it reads.
    pub open spec fn spec_rows(self) -> int {
        if self.mixture() {
            self.b_rows * self.n_tokens
        } else {
            self.n as int
        }
    }

    /// How far apart the activation rows are in a card's window.
    pub open spec fn spec_stride(self, half: bool) -> int {
        if half {
            self.k * 2 + B_PAD
        } else {
            self.nb_b + B_PAD
        }
    }

    /// Whether its column indices and activations fit the window.
    pub open spec fn acts_fit(self, half: bool) -> bool {
        self.spec_ids() + self.spec_rows() * self.spec_stride(half) <= B_MAX
    }

    /// The matrices a host fallback reads: the experts the columns name, at
    /// most.
    pub open spec fn spec_touched(self) -> int {
        if !self.mixture() {
            1
        } else if self.n <= self.experts {
            self.n as int
        } else {
            self.experts as int
        }
    }

    /// One token or a batch, at eight: the two are judged apart, because a
    /// multiply worth a card's latency at a batch is often not worth it at
    /// one token. What counts is the tokens, not a mixture's columns.
    pub open spec fn spec_class(self) -> int {
        if (if self.mixture() {
            self.n_tokens
        } else {
            self.n
        }) >= 8 {
            1
        } else {
            0
        }
    }

    /// Whether its activations go as halves: the quantized kernels read
    /// them so, and the float ones have no such twin.
    pub open spec fn spec_halves(self, can: bool) -> bool {
        can && self.a_type != MM_F32 && self.a_type != MM_F16
    }

    pub fn ids(&self) -> (r: u64)
        requires
            self.wf(),
        ensures
            r == self.spec_ids(),
    {
        if self.mixture() {
            ids_bytes(self.n)
        } else {
            0
        }
    }

    pub fn rows(&self) -> (r: u64)
        requires
            self.wf(),
        ensures
            r == self.spec_rows(),
    {
        if self.mixture() {
            self.b_rows * self.n_tokens
        } else {
            self.n
        }
    }

    pub fn stride(&self, half: bool) -> (r: u64)
        requires
            self.wf(),
        ensures
            r == self.spec_stride(half),
    {
        if half {
            self.k * 2 + B_PAD
        } else {
            self.nb_b + B_PAD
        }
    }

    pub fn touched(&self) -> (r: u64)
        ensures
            r == self.spec_touched(),
    {
        if !self.mixture() {
            1
        } else if self.n <= self.experts {
            self.n
        } else {
            self.experts
        }
    }

    pub fn class(&self) -> (r: usize)
        ensures
            r == self.spec_class(),
            r < 2,
    {
        let tokens: u64 = if self.mixture() {
            self.n_tokens
        } else {
            self.n
        };
        if tokens >= 8 {
            1
        } else {
            0
        }
    }

    /// Whether its times are fed to the batch share: those of every batch are,
    /// a mixture's too.
    pub fn adapts(&self) -> (r: bool)
        ensures
            r == (self.spec_class() == 1),
    {
        self.class() == 1
    }

    pub fn halves(&self, can: bool) -> (r: bool)
        ensures
            r == self.spec_halves(can),
    {
        can && self.a_type != MM_F32 && self.a_type != MM_F16
    }

    fn fits(&self, half: bool) -> (r: bool)
        requires
            self.wf(),
        ensures
            r == self.acts_fit(half),
    {
        let rows: u64 = self.rows();
        let stride: u64 = self.stride(half);
        proof {
            lemma_product(rows, stride);
        }
        self.ids() as u128 + rows as u128 * stride as u128 <= B_MAX as u128
    }
}

/// The product of two long words fits a longer one.
pub proof fn lemma_product(a: u64, b: u64)
    ensures
        0 <= a * b <= 0xffff_ffff_ffff_fffe_0000_0000_0000_0001,
{
    assert(0 <= a * b <= 0xffff_ffff_ffff_ffff * 0xffff_ffff_ffff_ffff) by (nonlinear_arith)
        requires
            0 <= a <= 0xffff_ffff_ffff_ffff,
            0 <= b <= 0xffff_ffff_ffff_ffff,
    ;
}

/// Can the cards take a multiply of this weight type and shape? The type and
/// the row strides are ones the kernels take, and the activations and the
/// result fit the window. (The host can take anything; a refusal means the
/// whole operation stays on the host.)
pub open spec fn spec_supports(a_type: u32, m: int, k: int, nb_a: int, nb_b: int, n: int) -> bool {
    &&& matmul::spec_shape_ok(a_type, k, nb_a, nb_b)
    &&& n * (nb_b + B_PAD) <= B_MAX
    &&& n * m * 4 <= D_MAX
}

/// Can the cards take a multiply of this weight type and shape?
pub fn supports(a_type: u32, m: u64, k: u64, nb_a: u64, nb_b: u64, n: u64) -> (r: bool)
    requires
        k * 4 <= u64::MAX,
        nb_b + B_PAD <= u64::MAX,
    ensures
        r == spec_supports(a_type, m as int, k as int, nb_a as int, nb_b as int, n as int),
{
    if !shape_ok(a_type, k, nb_a, nb_b) {
        return false;
    }
    proof {
        lemma_product(n, (nb_b + B_PAD) as u64);
    }
    proof {
        lemma_product(n, m);
    }
    let result: u128 = n as u128 * m as u128;
    n as u128 * (nb_b + B_PAD) as u128 <= B_MAX as u128 && result <= (D_MAX / 4) as u128
}

/// The weights the scheduler has offered so far, by address: what the cards
/// could hold. No address is in it twice.
pub struct Offered {
    pub weights: Vec<(usize, u64)>,
}

/// The bytes of all the weights.
pub open spec fn total_of(w: Seq<(usize, u64)>) -> int
    decreases w.len(),
{
    if w.len() == 0 {
        0
    } else {
        total_of(w.drop_last()) + w.last().1
    }
}

/// Whether a tensor is among the weights.
pub open spec fn among(w: Seq<(usize, u64)>, key: usize) -> bool {
    exists|i: int| 0 <= i < w.len() && (#[trigger] w[i]).0 == key
}

/// The weights with the tensor at `key` noted, or noted anew.
pub open spec fn noted(w: Seq<(usize, u64)>, key: usize, bytes: u64) -> Seq<(usize, u64)> {
    if among(w, key) {
        Seq::new(
            w.len(),
            |i: int|
                if w[i].0 == key {
                    (key, bytes)
                } else {
                    w[i]
                },
        )
    } else {
        w.push((key, bytes))
    }
}

impl Offered {
    pub open spec fn wf(self) -> bool {
        forall|i: int, j: int| 0 <= i < self.weights@.len() && 0 <= j < self.weights@.len()
            && (#[trigger] self.weights@[i]).0 == (#[trigger] self.weights@[j]).0 ==> i == j
    }

    pub fn new() -> (o: Offered)
        ensures
            o.wf(),
            o.weights@ == Seq::<(usize, u64)>::empty(),
    {
        Offered { weights: Vec::new() }
    }

    /// Notes that the tensor at `key` has `bytes` bytes; a tensor already
    /// noted is noted anew.
    pub fn note(&mut self, key: usize, bytes: u64)
        requires
            old(self).wf(),
        ensures
            final(self).wf(),
            final(self).weights@ == noted(old(self).weights@, key, bytes),
    {
        let ghost before = self.weights@;
        let n: usize = self.weights.len();
        for i in 0..n
            invariant
                n == before.len(),
                self.weights@ == before,
                before == old(self).weights@,
                old(self).wf(),
                forall|j: int| 0 <= j < i ==> (#[trigger] before[j]).0 != key,
        {
            if self.weights[i].0 == key {
                assert(before[i as int].0 == key);
                self.weights.set(i, (key, bytes));
                assert(self.weights@ =~= noted(before, key, bytes)) by {
                    assert forall|j: int| 0 <= j < before.len() && j != i implies (
                    #[trigger] before[j]).0 != key by {
                        assert(before[i as int].0 == key);
                    }
                }
                assert forall|a: int, b: int|
                    0 <= a < self.weights@.len() && 0 <= b < self.weights@.len() && (
                    #[trigger] self.weights@[a]).0 == (
                    #[trigger] self.weights@[b]).0 implies a == b by {
                    assert(before[a].0 == before[b].0);
                }
                return;
            }
        }
        self.weights.push((key, bytes));
        assert forall|a: int, b: int|
            0 <= a < self.weights@.len() && 0 <= b < self.weights@.len() && (
            #[trigger] self.weights@[a]).0 == (#[trigger] self.weights@[b]).0 implies a == b by {
            if a < before.len() {
                assert(before[a].0 != key || b < before.len());
            }
            if b < before.len() {
                assert(before[b].0 != key || a < before.len());
            }
            if a < before.len() && b < before.len() {
                assert(before[a].0 == before[b].0);
            }
        }
    }

    /// The bytes of all of them, as far as a long word holds them.
    pub fn total(&self) -> (t: u128)
        requires
            self.weights@.len() < 0x1_0000_0000_0000_0000,
        ensures
            t == total_of(self.weights@),
    {
        let mut t: u128 = 0;
        for i in 0..self.weights.len()
            invariant
                self.weights@.len() < 0x1_0000_0000_0000_0000,
                t == total_of(self.weights@.take(i as int)),
                t <= i * 0xffff_ffff_ffff_ffff,
        {
            assert(self.weights@.take(i + 1).drop_last() =~= self.weights@.take(i as int));
            assert(i * 0xffff_ffff_ffff_ffff + 0xffff_ffff_ffff_ffff <= u128::MAX) by (nonlinear_arith)
                requires
                    0 <= i < 0x1_0000_0000_0000_0000,
            ;
            t = t + self.weights[i].1 as u128;
        }
        assert(self.weights@.take(self.weights@.len() as int) =~= self.weights@);
        t
    }
}

/// Whether the share of the rows that each card keeps is to be sized from
/// the weights offered, and has been.
pub struct Sizing {
    /// Whether it is sized at all; otherwise it was given.
    pub auto: bool,
    pub settled: bool,
    pub offered: Offered,
}

impl Sizing {
    pub open spec fn wf(self) -> bool {
        self.offered.wf()
    }

    pub fn new(auto: bool) -> (s: Sizing)
        ensures
            s.wf(),
            s.auto == auto,
            !s.settled,
            s.offered.weights@.len() == 0,
    {
        Sizing { auto, settled: false, offered: Offered::new() }
    }

    /// A weight tensor was offered. After the share is settled this is
    /// ignored: a second model arriving later is fitted into what budget is
    /// left, as any tensor past the budget is. So is a tensor without data.
    pub fn note_weight(&mut self, key: usize, bytes: u64)
        requires
            old(self).wf(),
        ensures
            final(self).wf(),
            final(self).auto == old(self).auto,
            final(self).settled == old(self).settled,
            final(self).offered.weights@ == (if key == 0 || old(self).settled {
                old(self).offered.weights@
            } else {
                noted(old(self).offered.weights@, key, bytes)
            }),
    {
        if key != 0 && !self.settled {
            self.offered.note(key, bytes);
        }
    }

    /// Settles the share at the first multiply: the bytes of the weights
    /// offered, where the share is to be sized from them.
    pub fn settle(&mut self) -> (total: Option<u128>)
        requires
            old(self).wf(),
            old(self).offered.weights@.len() < 0x1_0000_0000_0000_0000,
        ensures
            final(self).wf(),
            final(self).settled,
            final(self).auto == old(self).auto,
            final(self).offered.weights@ == old(self).offered.weights@,
            ({
                let t = total_of(old(self).offered.weights@);
                if old(self).settled || !old(self).auto || t == 0 {
                    total is None
                } else {
                    total == Some(t as u128)
                }
            }),
    {
        let was: bool = self.settled;
        self.settled = true;
        let total: u128 = self.offered.total();
        if was || !self.auto || total == 0 {
            None
        } else {
            Some(total)
        }
    }
}

/// The smallest of the cards' budgets: a share that fills it fits every
/// card.
pub fn least(budgets: &Vec<u64>) -> (b: u64)
    ensures
        budgets@.len() == 0 ==> b == 0,
        budgets@.len() > 0 ==> budgets@.contains(b),
        forall|i: int| 0 <= i < budgets@.len() ==> b <= #[trigger] budgets@[i],
{
    if budgets.len() == 0 {
        return 0;
    }
    let mut b: u64 = budgets[0];
    assert(budgets@[0] == b);
    for i in 1..budgets.len()
        invariant
            budgets@.contains(b),
            forall|j: int| 0 <= j < i ==> b <= #[trigger] budgets@[j],
    {
        if budgets[i] < b {
            b = budgets[i];
            assert(budgets@[i as int] == b);
        }
    }
    b
}

/// Why the host computes every row of a multiply.
#[derive(Clone, Copy, PartialEq, Eq, Structural, Debug)]
pub enum Why {
    /// The tensor changes, or the multiply is past the window's limits.
    PastLimits,
    /// The tensor is of a fused feed-forward block, and reaching it alone
    /// means the block was declined as a whole.
    Fused,
    /// Float weights at a batch are the card's worst case and the host's
    /// ordinary one.
    FloatBatch,
    /// The cards did not pay for themselves on it.
    DidNotPay,
    /// Too small to pay for a card.
    TooSmall,
    /// Its activations are past a half, and as float32 past the window.
    Float32PastWindow,
}

/// What is to be done first with a multiply.
#[derive(Clone, Copy, PartialEq, Eq, Structural, Debug)]
pub enum Route {
    /// There is nothing to compute.
    Empty,
    /// The host computes every row.
    Host(Why),
    /// The tensor is new: its split is to be planned.
    Plan,
    /// Its split is known.
    Known,
}

/// The rows one card computes.
#[derive(Clone, Copy, PartialEq, Eq, Structural, Debug)]
pub struct Work {
    pub card: usize,
    pub lo: u64,
    pub rows: u64,
}

/// What the cards and the host each take of a multiply.
pub enum Allot {
    /// The host computes every row.
    Host(Why),
    /// The cards compute `work`, `on_cards` rows in all; `read_back` bytes
    /// of their resident rows are left to the host.
    Cards { work: Vec<Work>, on_cards: u64, read_back: u64 },
}

/// How the multiplies of a program are shared.
pub struct Shares {
    /// Each tensor's split, by its address.
    pub splits: HashMap<usize, Split>,
    /// Every tensor of a fused feed-forward block: the card holds the last
    /// of its matrices by columns there, not by rows.
    pub members: HashSet<usize>,
    /// The cards' rows are theirs alone: after the upload the host does not
    /// read them, whatever the multiplies measure.
    pub offload: bool,
    /// Whether activations may go as halves.
    pub half_act: bool,
    /// The weights a multiply must take off the host before a card is worth
    /// its round trip.
    pub min_bytes: u64,
    /// Multiplies begun.
    pub calls: u64,
    /// Multiplies left with the host: too small, or found not to pay.
    pub too_small: u64,
    /// Multiplies left with the host for another reason.
    pub host_only: u64,
    /// Bytes of the cards' resident rows the host has read since the upload.
    pub host_read: u64,
    /// The host's row ranges of the multiply begun last.
    pub host_ranges: Vec<(u64, u64)>,
}

/// A count that stays at its limit.
#[verifier::allow_in_spec]
pub fn counted(x: u64, more: u64) -> u64
    returns
        (if more <= u64::MAX - x {
            (x + more) as u64
        } else {
            u64::MAX
        }),
{
    if more <= u64::MAX - x {
        x + more
    } else {
        u64::MAX
    }
}

/// The rows a card computes of its slice, at the share that wants `want` of
/// them: so many more that the host's part of the slice is a multiple of 64.
/// Of a mixture's slice it computes all: the experts lie one after another
/// in its buffer, so the rows it is asked for are also how far apart they are.
pub open spec fn part_rows(s: Slice, want: u64, mixture: bool) -> int {
    let len = (s.hi - s.lo) as u64;
    len - whole(if want <= len && !mixture {
        (len - want) as u64
    } else {
        0
    })
}

/// The rows each card computes of its slice.
pub open spec fn parts_of(cards: Seq<Slice>, wants: Seq<u64>, mixture: bool) -> Seq<u64> {
    Seq::new(cards.len(), |i: int| part_rows(cards[i], wants[i], mixture) as u64)
}

/// Whether each part is one of its slice.
pub open spec fn parts_fit(cards: Seq<Slice>, parts: Seq<u64>) -> bool {
    &&& parts.len() == cards.len()
    &&& forall|i: int| 0 <= i < cards.len() ==> #[trigger] parts[i] <= cards[i].hi - cards[i].lo
}

/// What the first `n` cards compute: the first rows of their slices.
pub open spec fn work_of(cards: Seq<Slice>, parts: Seq<u64>, n: int) -> Seq<Work>
    decreases n,
{
    if n <= 0 {
        seq![]
    } else {
        let before = work_of(cards, parts, n - 1);
        if parts[n - 1] > 0 {
            before.push(
                Work { card: cards[n - 1].card, lo: cards[n - 1].lo, rows: parts[n - 1] },
            )
        } else {
            before
        }
    }
}

/// The host's ranges: its own rows, and what is left of the first `n` slices.
pub open spec fn ranges_of(r0: u64, cards: Seq<Slice>, parts: Seq<u64>, n: int) -> Seq<(u64, u64)>
    decreases n,
{
    if n <= 0 {
        if r0 > 0 {
            seq![(0u64, r0)]
        } else {
            seq![]
        }
    } else {
        let s = cards[n - 1];
        let before = ranges_of(r0, cards, parts, n - 1);
        if s.lo + parts[n - 1] < s.hi {
            before.push(((s.lo + parts[n - 1]) as u64, s.hi))
        } else {
            before
        }
    }
}

/// The rows the first `n` cards compute.
pub open spec fn rows_on_cards(parts: Seq<u64>, n: int) -> int
    decreases n,
{
    if n <= 0 {
        0
    } else {
        rows_on_cards(parts, n - 1) + parts[n - 1]
    }
}

impl Shares {
    /// Every split is one, and of the tensor at its address.
    pub open spec fn wf(self) -> bool {
        forall|key: usize| #[trigger]
            self.splits@.contains_key(key) ==> self.splits@[key].wf()
    }

    /// The split known for the multiply, if any, is of its tensor.
    pub open spec fn knows(self, mul: Multiply) -> bool {
        self.splits@.contains_key(mul.key) ==> self.splits@[mul.key].m == mul.m
    }

    /// Everything but the counters and the host's ranges is as before.
    pub open spec fn same_splits(self, before: Shares) -> bool {
        &&& self.splits@ == before.splits@
        &&& self.members@ == before.members@
        &&& self.offload == before.offload
        &&& self.half_act == before.half_act
        &&& self.min_bytes == before.min_bytes
    }

    /// The counters and the ranges are as before.
    pub open spec fn same_counts(self, before: Shares) -> bool {
        &&& self.calls == before.calls
        &&& self.too_small == before.too_small
        &&& self.host_only == before.host_only
        &&& self.host_read == before.host_read
        &&& self.host_ranges@ == before.host_ranges@
    }

    pub fn new(offload: bool, half_act: bool, min_bytes: u64) -> (s: Shares)
        ensures
            s.wf(),
            s.splits@ == Map::<usize, Split>::empty(),
            s.members@ == Set::<usize>::empty(),
            s.offload == offload,
            s.half_act == half_act,
            s.min_bytes == min_bytes,
            s.calls == 0,
            s.too_small == 0,
            s.host_only == 0,
            s.host_read == 0,
            s.host_ranges@ == Seq::<(u64, u64)>::empty(),
    {
        Shares {
            splits: HashMap::new(),
            members: HashSet::new(),
            offload,
            half_act,
            min_bytes,
            calls: 0,
            too_small: 0,
            host_only: 0,
            host_read: 0,
            host_ranges: Vec::new(),
        }
    }

    /// The bytes of the cards' resident rows that the host reads when it
    /// computes every row itself.
    pub open spec fn read_whole(self, mul: Multiply) -> int {
        if self.splits@.contains_key(mul.key) {
            (mul.m - self.splits@[mul.key].r0) * mul.nb_a * mul.spec_touched()
        } else {
            0
        }
    }

    /// The host computes every row: any of those rows resident on a card are
    /// rows the host reads back, and they are counted.
    pub open spec fn all_on_host(self, mul: Multiply, before: Shares) -> bool {
        &&& self.host_ranges@ == seq![(0u64, mul.m)]
        &&& self.host_read == counted(before.host_read, before.read_whole(mul) as u64)
        &&& self.calls == before.calls
    }

    fn host_all(&mut self, mul: &Multiply)
        requires
            old(self).wf(),
            old(self).knows(*mul),
            mul.wf(),
        ensures
            final(self).same_splits(*old(self)),
            final(self).all_on_host(*mul, *old(self)),
            final(self).too_small == old(self).too_small,
            final(self).host_only == old(self).host_only,
            0 <= old(self).read_whole(*mul) <= u64::MAX,
    {
        let mut ranges: Vec<(u64, u64)> = Vec::new();
        ranges.push((0, mul.m));
        self.host_ranges = ranges;
        assert(self.host_ranges@ =~= seq![(0u64, mul.m)]);
        match self.splits.get(&mul.key) {
            Some(split) => {
                let touched: u64 = mul.touched();
                let rows: u64 = mul.m - split.r0;
                proof {
                    lemma_tensor_bytes(rows, touched, *mul);
                }
                self.host_read = counted(self.host_read, rows * mul.nb_a * touched);
            },
            None => {},
        }
    }

    /// What is to be done first with a multiply. `can_half` is whether the
    /// host converts to halves; `most` is how many rows the cards could take
    /// of it between them.
    pub open spec fn route(self, mul: Multiply, can_half: bool, most: u64) -> Route {
        if mul.n == 0 {
            Route::Empty
        } else if !mul.keep || !spec_supports(
            mul.a_type,
            mul.m as int,
            mul.k as int,
            mul.nb_a as int,
            mul.nb_b as int,
            mul.spec_rows(),
        ) || !mul.acts_fit(mul.spec_halves(self.half_act && can_half)) || mul.n * mul.m * 4 > D_MAX {
            Route::Host(Why::PastLimits)
        } else if self.members@.contains(mul.key) {
            Route::Host(Why::Fused)
        } else if self.splits@.contains_key(mul.key) {
            Route::Known
        } else if !mul.mixture() && most * mul.nb_a < self.min_bytes {
            Route::Known
        } else {
            Route::Plan
        }
    }

    /// Begins a multiply: counts it, and says what is to be done first. A
    /// plain multiply whose largest possible card part cannot reach
    /// `min_bytes` is never given to the cards, so its rows are not uploaded
    /// either: its split is then known to be the host's alone. A mixture's
    /// card part grows with its columns, so it is planned as always.
    pub fn begin(&mut self, mul: &Multiply, can_half: bool, most: u64) -> (r: Route)
        requires
            old(self).wf(),
            old(self).knows(*mul),
            mul.wf(),
            most <= mul.m,
        ensures
            final(self).wf(),
            final(self).knows(*mul),
            r == old(self).route(*mul, can_half, most),
            final(self).calls == counted(old(self).calls, 1),
            final(self).too_small == old(self).too_small,
            final(self).members@ == old(self).members@,
            final(self).offload == old(self).offload,
            final(self).half_act == old(self).half_act,
            final(self).min_bytes == old(self).min_bytes,
            r is Host ==> {
                &&& final(self).host_ranges@ == seq![(0u64, mul.m)]
                &&& final(self).host_only == counted(old(self).host_only, 1)
                &&& final(self).host_read == counted(
                    old(self).host_read,
                    old(self).read_whole(*mul) as u64,
                )
            },
            r is Empty ==> final(self).host_ranges@.len() == 0,
            !(r is Host) ==> {
                &&& final(self).host_only == old(self).host_only
                &&& final(self).host_read == old(self).host_read
            },
            r is Known && !old(self).splits@.contains_key(mul.key) ==> {
                &&& final(self).splits@.contains_key(mul.key)
                &&& final(self).splits@[mul.key].r0 == mul.m
                &&& final(self).splits@[mul.key].cards@.len() == 0
                &&& final(self).splits@[mul.key].avoid@ == seq![false, false]
                &&& final(self).splits@[mul.key].bad@ == seq![0u32, 0u32]
                &&& final(self).splits@.remove(mul.key) == old(self).splits@
            },
            r is Known && old(self).splits@.contains_key(mul.key) ==> final(self).splits@
                == old(self).splits@,
            !(r is Known) ==> final(self).splits@ == old(self).splits@,
    {
        self.calls = counted(self.calls, 1);
        if mul.n == 0 {
            self.host_ranges = Vec::new();
            return Route::Empty;
        }
        let half: bool = mul.halves(self.half_act && can_half);
        proof {
            lemma_product(mul.n, mul.m);
        }
        let result: u128 = mul.n as u128 * mul.m as u128;
        if !mul.keep || !supports(mul.a_type, mul.m, mul.k, mul.nb_a, mul.nb_b, mul.rows())
            || !mul.fits(half) || result > (D_MAX / 4) as u128 {
            self.host_only = counted(self.host_only, 1);
            self.host_all(mul);
            return Route::Host(Why::PastLimits);
        }
        if self.members.contains(&mul.key) {
            self.host_only = counted(self.host_only, 1);
            self.host_all(mul);
            return Route::Host(Why::Fused);
        }
        if self.splits.contains_key(&mul.key) {
            return Route::Known;
        }
        proof {
            lemma_tensor_bytes(most, 1, *mul);
        }
        if !mul.mixture() && most * mul.nb_a < self.min_bytes {
            self.splits.insert(mul.key, Split::host_only(mul.m));
            assert(self.splits@.remove(mul.key) =~= old(self).splits@);
            return Route::Known;
        }
        Route::Plan
    }

    /// A tensor's split, planned: it is known from now on.
    pub fn learn(&mut self, key: usize, split: Split)
        requires
            old(self).wf(),
            split.wf(),
        ensures
            final(self).wf(),
            final(self).splits@ == old(self).splits@.insert(key, split),
            final(self).members@ == old(self).members@,
            final(self).offload == old(self).offload,
            final(self).half_act == old(self).half_act,
            final(self).min_bytes == old(self).min_bytes,
            final(self).same_counts(*old(self)),
    {
        self.splits.insert(key, split);
    }

    /// A tensor of a fused block that the cards had already been given alone
    /// is no longer split: its split, for its slices to be let go of, so the
    /// block is held once.
    pub fn unlearn(&mut self, key: usize) -> (s: Option<Split>)
        requires
            old(self).wf(),
        ensures
            final(self).wf(),
            s == (if old(self).splits@.contains_key(key) {
                Some(old(self).splits@[key])
            } else {
                None
            }),
            final(self).splits@ == old(self).splits@.remove(key),
            final(self).members@ == old(self).members@,
            final(self).offload == old(self).offload,
            final(self).half_act == old(self).half_act,
            final(self).min_bytes == old(self).min_bytes,
            final(self).same_counts(*old(self)),
    {
        let s = self.splits.remove(&key);
        assert(self.splits@ =~= old(self).splits@.remove(key));
        s
    }

    /// The three tensors of a block go to the cards only with it from now on.
    pub fn fuse(&mut self, gate: usize, up: usize, down: usize)
        requires
            old(self).wf(),
        ensures
            final(self).wf(),
            final(self).members@ == old(self).members@.insert(gate).insert(up).insert(down),
            final(self).splits@ == old(self).splits@,
            final(self).offload == old(self).offload,
            final(self).half_act == old(self).half_act,
            final(self).min_bytes == old(self).min_bytes,
            final(self).same_counts(*old(self)),
    {
        self.members.insert(gate);
        self.members.insert(up);
        self.members.insert(down);
    }

    /// Every slice kept on the cards was let go of.
    pub fn clear(&mut self)
        ensures
            final(self).wf(),
            final(self).splits@ == Map::<usize, Split>::empty(),
            final(self).members@ == old(self).members@,
            final(self).offload == old(self).offload,
            final(self).half_act == old(self).half_act,
            final(self).min_bytes == old(self).min_bytes,
            final(self).same_counts(*old(self)),
    {
        self.splits.clear();
    }

    /// The host's row range `i` of the multiply begun last.
    pub fn host_range(&self, i: usize) -> (r: Option<(u64, u64)>)
        ensures
            r == (if i < self.host_ranges@.len() {
                Some(self.host_ranges@[i as int])
            } else {
                None
            }),
    {
        if i < self.host_ranges.len() {
            Some(self.host_ranges[i])
        } else {
            None
        }
    }

    /// What the cards would take off the host: their rows once, or once per
    /// column for a mixture.
    pub open spec fn saved(mul: Multiply, on_cards: int) -> int {
        on_cards * mul.nb_a * (if mul.mixture() {
            mul.n as int
        } else {
            1
        })
    }

    /// Why the host keeps a multiply of a known split after all, when the
    /// cards would compute `on_cards` rows. Float weights at a batch are
    /// left whole without waiting to learn it; a tensor that was found not
    /// to pay is left; and below `min_bytes` no card can pay for itself and
    /// there is nothing to learn. Offloaded, rows on a card go to it whatever
    /// it costs and however few: the host has let go of them.
    pub open spec fn declined(self, mul: Multiply, on_cards: int) -> Option<Why> {
        if !self.offload && mul.spec_class() == 1 && (mul.a_type == MM_F16 || mul.a_type
            == MM_F32) {
            Some(Why::FloatBatch)
        } else if !self.offload && self.splits@[mul.key].avoid[mul.spec_class()] {
            Some(Why::DidNotPay)
        } else if on_cards == 0 || (!self.offload && Shares::saved(mul, on_cards)
            < self.min_bytes) {
            Some(Why::TooSmall)
        } else {
            None
        }
    }

    /// Shares out a multiply whose split is known. At a batch each card
    /// takes the first rows of its slice, `wants[i]` of them as near as the
    /// host's row multiple allows, and the host the rest as one more range;
    /// of a mixture it takes its whole slice.
    pub fn allot(&mut self, mul: &Multiply, wants: &Vec<u64>) -> (a: Allot)
        requires
            old(self).wf(),
            old(self).knows(*mul),
            mul.wf(),
            mul.n * mul.m * 4 <= D_MAX,
            old(self).splits@.contains_key(mul.key),
            wants@.len() == old(self).splits@[mul.key].cards@.len(),
        ensures
            final(self).same_splits(*old(self)),
            final(self).wf(),
            final(self).host_only == old(self).host_only,
            ({
                let split = old(self).splits@[mul.key];
                let n = split.cards@.len() as int;
                let parts = parts_of(split.cards@, wants@, mul.mixture());
                let on = rows_on_cards(parts, n);
                match old(self).declined(*mul, on) {
                    Some(why) => {
                        &&& a matches Allot::Host(w) && w == why
                        &&& final(self).all_on_host(*mul, *old(self))
                        &&& final(self).too_small == counted(old(self).too_small, 1)
                    },
                    None => {
                        &&& a matches Allot::Cards { work, on_cards, read_back }
                            && work@ == work_of(split.cards@, parts, n)
                            && on_cards == on
                            && read_back == (mul.m - split.r0 - on) * mul.nb_a * mul.spec_touched()
                        &&& final(self).host_ranges@ == ranges_of(split.r0, split.cards@, parts, n)
                        &&& final(self).calls == old(self).calls
                        &&& final(self).too_small == old(self).too_small
                        &&& final(self).host_read == old(self).host_read
                    },
                }
            }),
    {
        let class: usize = mul.class();
        if !self.offload && class == 1 && (mul.a_type == MM_F16 || mul.a_type == MM_F32) {
            self.too_small = counted(self.too_small, 1);
            self.host_all(mul);
            return Allot::Host(Why::FloatBatch);
        }
        let (avoid, shared): (bool, Shared) = match self.splits.get(&mul.key) {
            Some(split) => {
                let parts: Vec<u64> = parts(split, wants, mul.mixture());
                (split.avoid[class], Shared::of(&split.cards, split.m, split.r0, &parts))
            },
            None => (true, Shared { work: Vec::new(), ranges: Vec::new(), on: 0, r0: 0 }),
        };
        if !self.offload && avoid {
            self.too_small = counted(self.too_small, 1);
            self.host_all(mul);
            return Allot::Host(Why::DidNotPay);
        }
        let cols: u64 = if mul.mixture() {
            mul.n
        } else {
            1
        };
        proof {
            lemma_tensor_bytes(shared.on, 1, *mul);
            lemma_tensor_bytes((mul.m - shared.r0 - shared.on) as u64, mul.spec_touched() as u64, *mul);
            lemma_product((shared.on * mul.nb_a) as u64, cols);
        }
        let saved: u128 = (shared.on * mul.nb_a) as u128 * cols as u128;
        if shared.on == 0 || (!self.offload && saved < self.min_bytes as u128) {
            self.too_small = counted(self.too_small, 1);
            self.host_all(mul);
            return Allot::Host(Why::TooSmall);
        }
        let left: u64 = mul.m - shared.r0 - shared.on;
        let read_back: u64 = left * mul.nb_a * mul.touched();
        self.host_ranges = shared.ranges;
        Allot::Cards { work: shared.work, on_cards: shared.on, read_back }
    }

    /// The multiply goes to the cards: the host's part of the cards' slices
    /// is rows it reads back.
    pub fn goes(&mut self, read_back: u64)
        requires
            old(self).wf(),
        ensures
            final(self).same_splits(*old(self)),
            final(self).wf(),
            final(self).host_read == counted(old(self).host_read, read_back),
            final(self).calls == old(self).calls,
            final(self).too_small == old(self).too_small,
            final(self).host_only == old(self).host_only,
            final(self).host_ranges@ == old(self).host_ranges@,
    {
        self.host_read = counted(self.host_read, read_back);
    }

    /// Judges a multiply of the tensor at `key`; whether it is left to the
    /// host from now on and was not before. Offloaded, nothing is judged:
    /// the host could not take the rows back.
    pub fn judge(&mut self, key: usize, class: usize, c: Compared) -> (new: bool)
        requires
            old(self).wf(),
            class < 2,
        ensures
            final(self).wf(),
            final(self).same_counts(*old(self)),
            final(self).members@ == old(self).members@,
            final(self).offload == old(self).offload,
            final(self).half_act == old(self).half_act,
            final(self).min_bytes == old(self).min_bytes,
            old(self).offload || !old(self).splits@.contains_key(key) ==> !new
                && final(self).splits@ == old(self).splits@,
            !old(self).offload && old(self).splits@.contains_key(key) ==> {
                let a = old(self).splits@[key];
                let b = final(self).splits@[key];
                &&& final(self).splits@ == old(self).splits@.insert(key, b)
                &&& b.m == a.m && b.r0 == a.r0 && b.cards@ == a.cards@
                &&& b.bad@ == a.bad@.update(
                    class as int,
                    judge::judged_bad(a.bad[class as int], c) as u32,
                )
                &&& b.avoid@ == a.avoid@.update(class as int, a.avoid[class as int] || new)
                &&& new == (!a.avoid[class as int] && !(c is NoLonger) && judge::judged_bad(
                    a.bad[class as int],
                    c,
                ) >= 2)
            },
    {
        if self.offload {
            return false;
        }
        match self.splits.remove(&key) {
            Some(mut split) => {
                let new: bool = split.judge(class, c);
                self.splits.insert(key, split);
                assert(self.splits@ =~= old(self).splits@.insert(key, self.splits@[key]));
                new
            },
            None => {
                assert(self.splits@ =~= old(self).splits@);
                false
            },
        }
    }

    /// The activations were found past a half's range, so they go as
    /// float32: to every card where those fit the window, or else the host
    /// computes every row.
    pub fn past_half(&mut self, mul: &Multiply) -> (fits: bool)
        requires
            old(self).wf(),
            old(self).knows(*mul),
            mul.wf(),
        ensures
            final(self).same_splits(*old(self)),
            final(self).wf(),
            fits == mul.acts_fit(false),
            fits ==> final(self).same_counts(*old(self)),
            !fits ==> {
                &&& final(self).all_on_host(*mul, *old(self))
                &&& final(self).host_only == counted(old(self).host_only, 1)
                &&& final(self).too_small == old(self).too_small
            },
    {
        if mul.fits(false) {
            return true;
        }
        self.host_only = counted(self.host_only, 1);
        self.host_all(mul);
        false
    }
}

/// How often row `r` is in the host's ranges.
pub open spec fn times_on_host(ranges: Seq<(u64, u64)>, r: int) -> int
    decreases ranges.len(),
{
    if ranges.len() == 0 {
        0
    } else {
        let x = ranges.last();
        times_on_host(ranges.drop_last(), r) + (if x.0 <= r < x.1 {
            1int
        } else {
            0
        })
    }
}

/// How often row `r` is in the cards' work.
pub open spec fn times_on_cards(work: Seq<Work>, r: int) -> int
    decreases work.len(),
{
    if work.len() == 0 {
        0
    } else {
        let x = work.last();
        times_on_cards(work.drop_last(), r) + (if x.lo <= r < x.lo + x.rows {
            1int
        } else {
            0
        })
    }
}

/// Whatever part of its slice each card takes, every row of a multiply is
/// computed exactly once, by the host or by one card.
pub proof fn law_every_row_once(cards: Seq<Slice>, m: u64, r0: u64, parts: Seq<u64>, r: int)
    requires
        plan::stacked(cards, m, r0),
        parts_fit(cards, parts),
        0 <= r < m,
    ensures
        times_on_host(ranges_of(r0, cards, parts, cards.len() as int), r) + times_on_cards(
            work_of(cards, parts, cards.len() as int),
            r,
        ) == 1,
{
    let n = cards.len() as int;
    lemma_rows_upto(cards, m, r0, parts, r, n);
    if n > 0 {
        assert(plan::above(cards, m, n) == cards.last().lo);
    }
}

proof fn lemma_rows_upto(cards: Seq<Slice>, m: u64, r0: u64, parts: Seq<u64>, r: int, n: int)
    requires
        plan::stacked(cards, m, r0),
        parts_fit(cards, parts),
        0 <= r < m,
        0 <= n <= cards.len(),
    ensures
        times_on_host(ranges_of(r0, cards, parts, n), r) + times_on_cards(
            work_of(cards, parts, n),
            r,
        ) == (if r < r0 {
            1int
        } else {
            0
        }) + (if plan::above(cards, m, n) <= r {
            1int
        } else {
            0
        }),
    decreases n,
{
    reveal_with_fuel(times_on_host, 2);
    if n > 0 {
        lemma_rows_upto(cards, m, r0, parts, r, n - 1);
        let s = cards[n - 1];
        assert(s.hi == plan::above(cards, m, n - 1));
        assert(s.lo < s.hi);
        let rows = parts[n - 1];
        let ranges = ranges_of(r0, cards, parts, n - 1);
        let work = work_of(cards, parts, n - 1);
        assert(ranges.push(((s.lo + rows) as u64, s.hi)).drop_last() =~= ranges);
        let w = Work { card: s.card, lo: s.lo, rows };
        assert(work.push(w).drop_last() =~= work);
    } else if r0 > 0 {
        assert(seq![(0u64, r0)].drop_last() =~= seq![]);
    }
}

/// The parts that the shares come to are parts of the slices, and leave the
/// host a multiple of 64 rows of each.
pub proof fn law_parts_fit(cards: Seq<Slice>, m: u64, r0: u64, wants: Seq<u64>, mixture: bool)
    requires
        plan::stacked(cards, m, r0),
        wants.len() == cards.len(),
    ensures
        parts_fit(cards, parts_of(cards, wants, mixture)),
        forall|i: int| 0 <= i < cards.len() ==> (cards[i].hi - cards[i].lo - #[trigger] parts_of(
            cards,
            wants,
            mixture,
        )[i]) % 64 == 0,
{
    assert forall|i: int| 0 <= i < cards.len() implies #[trigger] parts_of(cards, wants, mixture)[i]
        <= cards[i].hi - cards[i].lo && (cards[i].hi - cards[i].lo - parts_of(
        cards,
        wants,
        mixture,
    )[i]) % 64 == 0 by {
        assert(cards[i].lo < cards[i].hi);
    }
}

/// Where expert `e` begins in a card's buffer that holds `rows` rows of
/// every expert, one expert after another.
pub open spec fn expert_at(rows: int, nb_a: int, e: int) -> int {
    e * (rows * nb_a)
}

/// A card asked for its part of a mixture finds every expert where its
/// buffer holds it: the descriptor's rows are the rows it keeps of each.
pub proof fn law_experts_are_found(
    mul: Multiply,
    s: Slice,
    want: u64,
    id: u64,
    half: bool,
    e: int,
)
    requires
        mul.mixture(),
        s.lo <= s.hi,
    ensures
        ({
            let d = mul.spec_descriptor(id, part_rows(s, want, mul.mixture()) as u64, half);
            expert_at(d.m as int, d.nb_a as int, e) == expert_at(s.hi - s.lo, mul.nb_a as int, e)
        }),
{
}

/// The bytes of some of a tensor's rows, of some of its matrices, are no more
/// than the tensor's.
proof fn lemma_tensor_bytes(rows: u64, matrices: u64, mul: Multiply)
    requires
        mul.wf(),
        rows <= mul.m,
        matrices <= mul.experts || matrices <= 1,
    ensures
        0 <= rows * mul.nb_a <= u64::MAX,
        0 <= rows * mul.nb_a * matrices <= u64::MAX,
{
    let r = rows as int;
    let nb = mul.nb_a as int;
    let k = matrices as int;
    let m = mul.m as int;
    let e = mul.experts as int;
    assert(0 <= r * nb <= m * nb) by (nonlinear_arith)
        requires
            0 <= r <= m,
            nb >= 0,
    ;
    assert(m * nb <= m * nb * e) by (nonlinear_arith)
        requires
            m * nb >= 0,
            e >= 1,
    ;
    assert(0 <= r * nb * k <= m * nb * e) by (nonlinear_arith)
        requires
            0 <= r * nb <= m * nb,
            0 <= k <= e,
    ;
}

/// The rows each card computes of its slice.
fn parts(split: &Split, wants: &Vec<u64>, mixture: bool) -> (v: Vec<u64>)
    requires
        split.wf(),
        wants@.len() == split.cards@.len(),
    ensures
        v@ == parts_of(split.cards@, wants@, mixture),
        parts_fit(split.cards@, v@),
{
    let n: usize = split.cards.len();
    let mut v: Vec<u64> = Vec::new();
    for i in 0..n
        invariant
            n == split.cards@.len(),
            split.wf(),
            wants@.len() == split.cards@.len(),
            v@ =~= parts_of(split.cards@, wants@, mixture).take(i as int),
    {
        let s: Slice = split.cards[i];
        assert(s.lo < s.hi);
        let len: u64 = s.hi - s.lo;
        let want: u64 = wants[i];
        v.push(len - whole(if want <= len && !mixture {
            len - want
        } else {
            0
        }));
    }
    proof {
        law_parts_fit(split.cards@, split.m, split.r0, wants@, mixture);
    }
    v
}

/// A multiply shared out.
pub struct Shared {
    pub work: Vec<Work>,
    pub ranges: Vec<(u64, u64)>,
    /// Rows on the cards.
    pub on: u64,
    pub r0: u64,
}

impl Shared {
    /// Shares out `m` rows: the cards compute the first `parts[i]` rows of
    /// their slices, the host the rest.
    pub fn of(cards: &Vec<Slice>, m: u64, r0: u64, parts: &Vec<u64>) -> (s: Shared)
        requires
            plan::stacked(cards@, m, r0),
            parts_fit(cards@, parts@),
        ensures
            s.work@ == work_of(cards@, parts@, cards@.len() as int),
            s.ranges@ == ranges_of(r0, cards@, parts@, cards@.len() as int),
            s.on == rows_on_cards(parts@, cards@.len() as int),
            s.r0 == r0,
            s.r0 + s.on <= m,
    {
        let mut work: Vec<Work> = Vec::new();
        let mut ranges: Vec<(u64, u64)> = Vec::new();
        if r0 > 0 {
            ranges.push((0, r0));
        }
        assert(ranges@ =~= ranges_of(r0, cards@, parts@, 0));
        let mut on: u64 = 0;
        let n: usize = cards.len();
        for i in 0..n
            invariant
                n == cards@.len(),
                plan::stacked(cards@, m, r0),
                parts_fit(cards@, parts@),
                work@ == work_of(cards@, parts@, i as int),
                ranges@ == ranges_of(r0, cards@, parts@, i as int),
                on == rows_on_cards(parts@, i as int),
                on <= m - plan::above(cards@, m, i as int),
                plan::above(cards@, m, i as int) <= m,
        {
            let s: Slice = cards[i];
            let rows: u64 = parts[i];
            proof {
                assert(s.lo < s.hi);
                assert(s.hi == plan::above(cards@, m, i as int));
                assert(plan::above(cards@, m, i + 1) == s.lo);
            }
            if s.lo + rows < s.hi {
                ranges.push((s.lo + rows, s.hi));
            }
            if rows > 0 {
                work.push(Work { card: s.card, lo: s.lo, rows });
            }
            on = on + rows;
        }
        proof {
            if n > 0 {
                assert(plan::above(cards@, m, n as int) == cards@.last().lo);
            }
        }
        Shared { work, ranges, on, r0 }
    }
}

impl Multiply {
    /// Where activation row `c` is in its tensor: a mixture's rows run token
    /// by token, `nb_b2` bytes apart.
    pub fn row_at(&self, c: u64, nb_b2: u64) -> (at: u64)
        requires
            self.wf(),
            (c % self.b_rows) * self.nb_b + (c / self.b_rows) * nb_b2 <= u64::MAX,
            c * self.nb_b <= u64::MAX,
        ensures
            at == (if self.mixture() {
                (c % self.b_rows) * self.nb_b + (c / self.b_rows) * nb_b2
            } else {
                c * self.nb_b
            }),
    {
        if self.mixture() {
            let a: u64 = c % self.b_rows;
            let b: u64 = c / self.b_rows;
            proof {
                lemma_product(a, self.nb_b);
                lemma_product(b, nb_b2);
            }
            a * self.nb_b + b * nb_b2
        } else {
            c * self.nb_b
        }
    }

    /// The descriptor of a card's part: `rows` rows of the weights it keeps
    /// under `id`.
    pub open spec fn spec_descriptor(self, id: u64, rows: u64, half: bool) -> Matmul {
        Matmul {
            a_id: id,
            a_off: 0,
            bytes: 0,
            a_type: self.a_type,
            b_type: if half {
                1
            } else {
                0
            },
            m: rows,
            n: self.n,
            k: self.k,
            nb_a: self.nb_a,
            nb_b: self.spec_stride(half) as u64,
            b_off: OFF_B,
            d_off: OFF_D,
            chunk: 0,
            n_used: self.n_used,
            n_tokens: self.n_tokens,
            b_rows: if self.mixture() {
                self.b_rows
            } else {
                0
            },
            ids_bytes: self.spec_ids() as u64,
        }
    }

    /// The descriptor of a card's part.
    pub fn descriptor(&self, id: u64, rows: u64, half: bool) -> (d: Matmul)
        requires
            self.wf(),
        ensures
            d == self.spec_descriptor(id, rows, half),
    {
        Matmul {
            a_id: id,
            a_off: 0,
            bytes: 0,
            a_type: self.a_type,
            b_type: if half {
                1
            } else {
                0
            },
            m: rows,
            n: self.n,
            k: self.k,
            nb_a: self.nb_a,
            nb_b: self.stride(half),
            b_off: OFF_B,
            d_off: OFF_D,
            chunk: 0,
            n_used: self.n_used,
            n_tokens: self.n_tokens,
            b_rows: if self.mixture() {
                self.b_rows
            } else {
                0
            },
            ids_bytes: self.ids(),
        }
    }
}

/// A card's part under way: what it was asked for, so that its results find
/// their place.
#[derive(Clone, Copy, PartialEq, Eq, Structural, Debug)]
pub struct Pending {
    pub seq: u64,
    pub lo: u64,
    pub rows: u64,
    pub cols: u64,
    pub n_used: u64,
}

impl Pending {
    /// Where column `p` of a card's results begins in the card's window.
    pub open spec fn spec_from(self, p: int) -> int {
        OFF_D + p * self.rows * 4
    }

    /// Where column `p` of a card's results belongs in the destination: an
    /// ordinary multiply has one row of `nb_d` bytes per column, a mixture
    /// one per expert slot and token.
    pub open spec fn spec_to(self, p: int, nb_d: int, nb_d2: int) -> int {
        self.lo * 4 + (if self.n_used > 0 {
            (p % self.n_used as int) * nb_d + (p / self.n_used as int) * nb_d2
        } else {
            p * nb_d
        })
    }

    /// The two places, in the window and in the destination, of column `p`.
    pub fn places(&self, p: u64, nb_d: u64, nb_d2: u64) -> (r: (u64, u64))
        requires
            p < self.cols,
            self.spec_from(p as int) <= u64::MAX,
            self.spec_to(p as int, nb_d as int, nb_d2 as int) <= u64::MAX,
        ensures
            r.0 == self.spec_from(p as int),
            r.1 == self.spec_to(p as int, nb_d as int, nb_d2 as int),
    {
        proof {
            lemma_product(p, self.rows);
        }
        let from: u64 = OFF_D + p * self.rows * 4;
        let at: u64 = if self.n_used > 0 {
            let a: u64 = p % self.n_used;
            let b: u64 = p / self.n_used;
            proof {
                lemma_product(a, nb_d);
                lemma_product(b, nb_d2);
            }
            a * nb_d + b * nb_d2
        } else {
            proof {
                lemma_product(p, nb_d);
            }
            p * nb_d
        };
        (from, at + self.lo * 4)
    }
}

/// The results of a card's part stay in the window's result area, where the
/// multiply's result does.
pub proof fn law_results_in_area(mul: Multiply, rows: u64, p: int)
    requires
        mul.n * mul.m * 4 <= D_MAX,
        rows <= mul.m,
        0 <= p < mul.n,
    ensures
        (Pending { seq: 0, lo: 0, rows, cols: mul.n, n_used: mul.n_used }).spec_from(p) + rows * 4
            <= OFF_D + D_MAX,
{
    let n = mul.n as int;
    let m = mul.m as int;
    let r = rows as int;
    assert((p + 1) * r <= n * m) by (nonlinear_arith)
        requires
            0 <= p < n,
            0 <= r <= m,
    ;
    assert(p * r * 4 + r * 4 == (p + 1) * r * 4) by (nonlinear_arith);
}

} // verus!
