//! The fused feed-forward: a whole SwiGLU block (gate, up, the SwiGLU, down)
//! as one request per card, so the intermediate never crosses the link.
//! Tensor parallel: each card holds a run `lo..hi` of the intermediate, as
//! gate and up rows and as the same columns of down, computes its gate, up
//! and SwiGLU for that run and the down projection over it, and returns a
//! partial sum for every output row, which is added to the host's own.
use crate::ggml::judge;
use crate::ggml::judge::Compared;
use crate::ggml::plan;
use crate::ggml::plan::{Card, Slice};
use crate::ggml::share;
use crate::ggml::share::{counted, Shared, Shares, B_PAD};
use crate::vpu::matmul;
use crate::vpu::matmul::{shape_ok, A_MAX, B_MAX, D_MAX, OFF_B, OFF_D};
use crate::vpu::proto::Ffn;
use crate::vpu::weights;
use crate::vpu::weights::{quantized, row_bytes};
use vstd::prelude::*;

verus! {

/// A run of the intermediate is whole superblocks: the kernels take 256
/// weights at a time, and down's columns are cut at the run's edges.
pub const QK: u64 = 256;

/// The block as the caller describes it: gate and up are `inter` rows of `k`,
/// down `m_out` rows of `inter`, the activations `n` rows of `k`, each with
/// its row stride in bytes. Where the tensors are is the caller's.
#[derive(Clone, Copy, PartialEq, Eq, Structural, Debug)]
pub struct FfnArgs {
    pub gate_type: u32,
    pub up_type: u32,
    pub down_type: u32,
    pub k: u64,
    pub inter: u64,
    pub m_out: u64,
    pub n: u64,
    pub nb_gate: u64,
    pub nb_up: u64,
    pub nb_down: u64,
    pub nb_x: u64,
}

impl FfnArgs {
    /// Its tensors fit a machine's memory together.
    pub open spec fn wf(self) -> bool {
        &&& self.inter * self.nb_gate + self.inter * self.nb_up + self.m_out * (self.inter * 4)
            <= u64::MAX
        &&& self.inter * 4 <= u64::MAX
        &&& self.k * 4 + B_PAD <= u64::MAX
        &&& self.nb_x + B_PAD <= u64::MAX
    }

    /// Whether the cards take such a block: quantized weights, a whole
    /// number of superblocks, and gate and up rows the kernels take. The
    /// column gather cuts down's rows at superblocks, which needs its rows
    /// to be exactly their blocks.
    pub open spec fn spec_takes(self) -> bool {
        &&& quantized(self.gate_type)
        &&& quantized(self.up_type)
        &&& quantized(self.down_type)
        &&& self.inter % QK == 0
        &&& self.nb_down == weights::spec_row_bytes(self.down_type, self.inter as int)
        &&& matmul::spec_shape_ok(
            self.gate_type,
            self.k as int,
            self.nb_gate as int,
            self.k * 2 + B_PAD,
        )
        &&& matmul::spec_shape_ok(
            self.up_type,
            self.k as int,
            self.nb_up as int,
            self.k * 2 + B_PAD,
        )
    }

    /// Whether the cards take such a block.
    pub fn takes(&self) -> (r: bool)
        requires
            self.wf(),
        ensures
            r == self.spec_takes(),
    {
        quantized(self.gate_type) && quantized(self.up_type) && quantized(self.down_type)
            && self.inter % QK == 0 && self.nb_down == row_bytes(self.down_type, self.inter)
            && shape_ok(self.gate_type, self.k, self.nb_gate, self.k * 2 + B_PAD) && shape_ok(
            self.up_type,
            self.k,
            self.nb_up,
            self.k * 2 + B_PAD,
        )
    }

    /// How far apart the activation rows are in a card's window.
    pub open spec fn spec_stride(self, half: bool) -> int {
        if half {
            self.k * 2 + B_PAD
        } else {
            self.nb_x + B_PAD
        }
    }

    pub fn stride(&self, half: bool) -> (r: u64)
        requires
            self.wf(),
        ensures
            r == self.spec_stride(half),
    {
        if half {
            self.k * 2 + B_PAD
        } else {
            self.nb_x + B_PAD
        }
    }

    /// Whether the activations fit the window.
    pub open spec fn acts_fit(self, half: bool) -> bool {
        self.n * self.spec_stride(half) <= B_MAX
    }

    pub fn fits(&self, half: bool) -> (r: bool)
        requires
            self.wf(),
        ensures
            r == self.acts_fit(half),
    {
        let stride: u64 = self.stride(half);
        proof {
            share::lemma_product(self.n, stride);
        }
        self.n as u128 * stride as u128 <= B_MAX as u128
    }

    /// Whether the result fits the window.
    pub open spec fn result_fits(self) -> bool {
        self.n * self.m_out * 4 <= D_MAX
    }

    fn fits_result(&self) -> (r: bool)
        ensures
            r == self.result_fits(),
    {
        proof {
            share::lemma_product(self.n, self.m_out);
        }
        self.n as u128 * self.m_out as u128 <= (D_MAX / 4) as u128
    }

    /// One token or a batch, at eight.
    #[verifier::allow_in_spec]
    pub fn class(&self) -> usize
        returns
            (if self.n >= 8 {
                1usize
            } else {
                0usize
            }),
    {
        if self.n >= 8 {
            1
        } else {
            0
        }
    }

    /// Bytes that a run of `rows` takes on a card: of gate, of up, and of
    /// down's columns.
    pub open spec fn spec_parts(self, rows: int) -> (int, int, int) {
        (
            rows * self.nb_gate,
            rows * self.nb_up,
            self.m_out * weights::spec_row_bytes(self.down_type, rows),
        )
    }

    proof fn lemma_parts(self, rows: u64)
        requires
            self.wf(),
            rows <= self.inter,
            quantized(self.down_type),
        ensures
            0 <= self.spec_parts(rows as int).0,
            0 <= self.spec_parts(rows as int).1,
            0 <= self.spec_parts(rows as int).2,
            self.spec_parts(rows as int).0 + self.spec_parts(rows as int).1 + self.spec_parts(
                rows as int,
            ).2 <= u64::MAX,
            0 <= weights::spec_row_bytes(self.down_type, rows as int) <= rows * 4,
    {
        let r = rows as int;
        let i = self.inter as int;
        let g = self.nb_gate as int;
        let u = self.nb_up as int;
        let m = self.m_out as int;
        let d = weights::spec_row_bytes(self.down_type, r);
        weights::law_row_bytes(self.down_type, r);
        assert(0 <= r * g <= i * g && 0 <= r * u <= i * u) by (nonlinear_arith)
            requires
                0 <= r <= i,
                g >= 0,
                u >= 0,
        ;
        assert(0 <= m * d <= m * (i * 4)) by (nonlinear_arith)
            requires
                0 <= d <= i * 4,
                m >= 0,
        ;
    }

    /// Bytes that a run of `rows` takes on a card.
    pub fn parts(&self, rows: u64) -> (r: [u64; 3])
        requires
            self.wf(),
            rows <= self.inter,
            quantized(self.down_type),
        ensures
            r[0] == self.spec_parts(rows as int).0,
            r[1] == self.spec_parts(rows as int).1,
            r[2] == self.spec_parts(rows as int).2,
            r[0] + r[1] + r[2] <= u64::MAX,
    {
        proof {
            self.lemma_parts(rows);
        }
        [rows * self.nb_gate, rows * self.nb_up, self.m_out * row_bytes(self.down_type, rows)]
    }
}

/// Whole superblocks of `lo` rows, `blocks` of them or all there are.
#[verifier::allow_in_spec]
pub fn run_rows(blocks: u64, lo: u64) -> u64
    returns
        (if blocks <= lo / 256 {
            (blocks * 256) as u64
        } else {
            lo
        }),
{
    if blocks <= lo / 256 {
        blocks * 256
    } else {
        lo
    }
}

/// What a card is asked to keep of a block.
#[derive(Clone, Copy, PartialEq, Eq, Structural, Debug)]
pub enum Offer {
    /// Nothing: it takes no more, or no run is left for it.
    Nothing,
    /// Nothing: its budget is spent, and from now on it takes no more.
    Spent,
    /// The run `from..from + rows`.
    Run { from: u64, rows: u64 },
}

/// A block's split under way.
pub struct FfnPlan {
    pub block: FfnArgs,
    pub lo: u64,
    pub cards: Vec<Slice>,
    /// The ids of each run's gate rows, up rows and down columns.
    pub ids: Vec<[u64; 3]>,
}

impl FfnPlan {
    /// The runs so far are stacked below the last row, and everything is in
    /// whole superblocks.
    pub open spec fn wf(self) -> bool {
        &&& self.block.wf()
        &&& self.block.spec_takes()
        &&& plan::stacked(self.cards@, self.block.inter, self.lo)
        &&& self.lo % QK == 0
        &&& self.ids@.len() == self.cards@.len()
        &&& forall|i: int| 0 <= i < self.cards@.len() ==> (#[trigger] self.cards@[i]).lo % QK == 0
            && self.cards@[i].hi % QK == 0
    }

    pub fn new(block: FfnArgs) -> (p: FfnPlan)
        requires
            block.wf(),
            block.spec_takes(),
        ensures
            p.wf(),
            p.block == block,
            p.lo == block.inter,
            p.cards@ == Seq::<Slice>::empty(),
            p.ids@ == Seq::<[u64; 3]>::empty(),
    {
        FfnPlan { block, lo: block.inter, cards: Vec::new(), ids: Vec::new() }
    }

    /// What a card is offered: `blocks` superblocks of the intermediate from
    /// the top of those left, if it has the budget.
    pub fn offer(&self, card: &mut Card, blocks: u64) -> (o: Offer)
        requires
            self.wf(),
        ensures
            final(card).ids@ == old(card).ids@,
            final(card).like(
                old(card).next_id,
                old(card).uploaded,
                old(card).full || o is Spent,
                *old(card),
            ),
            ({
                let rows = run_rows(blocks, self.lo);
                let b = self.block.spec_parts(rows as int);
                o == (if old(card).full || rows == 0 {
                    Offer::Nothing
                } else if old(card).uploaded + b.0 + b.1 + b.2 > old(card).budget {
                    Offer::Spent
                } else {
                    Offer::Run { from: (self.lo - rows) as u64, rows }
                })
            }),
    {
        if card.full {
            return Offer::Nothing;
        }
        let rows: u64 = run_rows(blocks, self.lo);
        if rows == 0 {
            return Offer::Nothing;
        }
        let b: [u64; 3] = self.block.parts(rows);
        let bytes: u64 = b[0] + b[1] + b[2];
        if card.uploaded > card.budget || bytes > card.budget - card.uploaded {
            card.full = true;
            return Offer::Spent;
        }
        Offer::Run { from: self.lo - rows, rows }
    }

    /// The card `ci` was offered a run of `rows` and took the first `taken`
    /// of its three parts. With all three it keeps the run, under the next
    /// three ids; otherwise it lets go of what it took and keeps no more.
    pub fn answered(&mut self, card: &mut Card, ci: usize, rows: u64, taken: u64)
        requires
            old(self).wf(),
            0 < rows <= old(self).lo,
            rows % QK == 0,
            taken <= 3,
            old(card).next_id + 3 <= u64::MAX,
            ({
                let b = old(self).block.spec_parts(rows as int);
                old(card).uploaded + b.0 + b.1 + b.2 <= u64::MAX
            }),
        ensures
            final(self).wf(),
            final(self).block == old(self).block,
            final(card).ids@ == old(card).ids@,
            taken == 3 ==> {
                let b = old(self).block.spec_parts(rows as int);
                let id = old(card).next_id;
                &&& final(self).lo == old(self).lo - rows
                &&& final(self).cards@ == old(self).cards@.push(
                    (Slice { card: ci, lo: final(self).lo, hi: old(self).lo }),
                )
                &&& final(self).ids@.len() == old(self).ids@.len() + 1
                &&& final(self).ids@.drop_last() == old(self).ids@
                &&& final(self).ids@.last()@ == seq![id, (id + 1) as u64, (id + 2) as u64]
                &&& final(card).like(
                    (id + 3) as u64,
                    (old(card).uploaded + b.0 + b.1 + b.2) as u64,
                    old(card).full,
                    *old(card),
                )
            },
            taken < 3 ==> {
                &&& final(self).lo == old(self).lo
                &&& final(self).cards@ == old(self).cards@
                &&& final(self).ids@ == old(self).ids@
                &&& final(card).like(
                    (old(card).next_id + taken) as u64,
                    old(card).uploaded,
                    true,
                    *old(card),
                )
            },
    {
        let id: u64 = card.next_id;
        if taken < 3 {
            card.next_id = id + taken;
            card.full = true;
            return;
        }
        let b: [u64; 3] = self.block.parts(rows);
        card.next_id = id + 3;
        card.uploaded = card.uploaded + (b[0] + b[1] + b[2]);
        let hi: u64 = self.lo;
        let ghost before = self.cards@;
        let ghost m = self.block.inter;
        self.lo = hi - rows;
        self.cards.push(Slice { card: ci, lo: hi - rows, hi });
        self.ids.push([id, id + 1, id + 2]);
        assert(self.ids@.drop_last() =~= old(self).ids@);
        assert forall|i: int| 0 <= i < self.cards@.len() implies self.cards@[i].hi
            == #[trigger] plan::above(self.cards@, m, i) by {
            if i < before.len() {
                assert(before[i].hi == plan::above(before, m, i));
            }
        }
    }
}

/// Whether a part of a run fits the window's weight area.
pub fn fits_area(bytes: u64) -> (r: bool)
    ensures
        r == (bytes <= A_MAX),
{
    bytes <= A_MAX
}

/// One block's split: the host keeps the intermediate's rows `0..r0`, the
/// cards their runs.
pub struct FfnSplit {
    pub inter: u64,
    pub r0: u64,
    pub cards: Vec<Slice>,
    pub ids: Vec<[u64; 3]>,
    /// Whether the cards were found not to pay for themselves on this block,
    /// at one token and at a batch.
    pub bad: [u32; 2],
    pub avoid: [bool; 2],
    /// Nothing to share: a type or shape the cards do not take, or no card
    /// with room left.
    pub never: bool,
}

/// What becomes of a block.
#[derive(Clone, Copy, PartialEq, Eq, Structural, Debug)]
pub enum Fate {
    /// The cards take no part: there is nothing to compute.
    Empty,
    /// The cards take no part: they never do, or it did not pay.
    NotWorth,
    /// The cards take no part: it is past the window's limits.
    PastLimits,
    /// The cards' shares are to be worked out.
    Share,
}

impl FfnSplit {
    pub open spec fn wf(self) -> bool {
        &&& plan::stacked(self.cards@, self.inter, self.r0)
        &&& self.ids@.len() == self.cards@.len()
        &&& self.never == (self.cards@.len() == 0)
        &&& forall|i: int| 0 <= i < self.cards@.len() ==> (#[trigger] self.cards@[i]).lo % QK == 0
            && self.cards@[i].hi % QK == 0
    }

    /// A block that is the host's alone.
    pub fn host_only(inter: u64) -> (s: FfnSplit)
        ensures
            s.wf(),
            s.inter == inter,
            s.r0 == inter,
            s.never,
            s.bad@ == seq![0u32, 0u32],
            s.avoid@ == seq![false, false],
    {
        FfnSplit {
            inter,
            r0: inter,
            cards: Vec::new(),
            ids: Vec::new(),
            bad: [0, 0],
            avoid: [false, false],
            never: true,
        }
    }

    /// The split that a plan has come to.
    pub fn of(p: FfnPlan) -> (s: FfnSplit)
        requires
            p.wf(),
        ensures
            s.wf(),
            s.inter == p.block.inter,
            s.r0 == p.lo,
            s.cards@ == p.cards@,
            s.ids@ == p.ids@,
            s.never == (p.cards@.len() == 0),
            s.bad@ == seq![0u32, 0u32],
            s.avoid@ == seq![false, false],
    {
        let never: bool = p.cards.len() == 0;
        FfnSplit {
            inter: p.block.inter,
            r0: p.lo,
            cards: p.cards,
            ids: p.ids,
            bad: [0, 0],
            avoid: [false, false],
            never,
        }
    }

    /// What becomes of a call of the block, `can_half` being whether its
    /// activations may go as halves. Offloaded, the cards' runs are theirs
    /// whatever was measured.
    pub fn fate(&self, block: &FfnArgs, can_half: bool, offload: bool) -> (f: Fate)
        requires
            self.wf(),
            block.wf(),
        ensures
            f == (if block.n == 0 {
                Fate::Empty
            } else if self.never || (!offload && self.avoid[block.class() as int]) {
                Fate::NotWorth
            } else if !block.acts_fit(can_half) || !block.result_fits() {
                Fate::PastLimits
            } else {
                Fate::Share
            }),
    {
        if block.n == 0 {
            return Fate::Empty;
        }
        if self.never || (!offload && self.avoid[block.class()]) {
            return Fate::NotWorth;
        }
        if !block.fits(can_half) || !block.fits_result() {
            return Fate::PastLimits;
        }
        Fate::Share
    }

    /// The rows each card computes of its run: `blocks[i]` superblocks, or
    /// all there are.
    pub open spec fn spec_parts(self, blocks: Seq<u64>) -> Seq<u64> {
        Seq::new(
            self.cards@.len(),
            |i: int| run_rows(blocks[i], (self.cards@[i].hi - self.cards@[i].lo) as u64),
        )
    }

    /// Shares out a call of the block: each card computes the first
    /// `blocks[i]` superblocks of its run, the host the rest.
    pub fn share(&self, blocks: &Vec<u64>) -> (s: Shared)
        requires
            self.wf(),
            blocks@.len() == self.cards@.len(),
        ensures
            share::parts_fit(self.cards@, self.spec_parts(blocks@)),
            s.work@ == share::work_of(
                self.cards@,
                self.spec_parts(blocks@),
                self.cards@.len() as int,
            ),
            s.ranges@ == share::ranges_of(
                self.r0,
                self.cards@,
                self.spec_parts(blocks@),
                self.cards@.len() as int,
            ),
            s.on == share::rows_on_cards(self.spec_parts(blocks@), self.cards@.len() as int),
            s.r0 == self.r0,
    {
        let n: usize = self.cards.len();
        let mut parts: Vec<u64> = Vec::new();
        for i in 0..n
            invariant
                n == self.cards@.len(),
                self.wf(),
                blocks@.len() == self.cards@.len(),
                parts@ =~= self.spec_parts(blocks@).take(i as int),
        {
            let s: Slice = self.cards[i];
            assert(s.lo < s.hi);
            parts.push(run_rows(blocks[i], s.hi - s.lo));
        }
        assert(parts@ =~= self.spec_parts(blocks@));
        assert forall|i: int| 0 <= i < n implies #[trigger] parts@[i] <= self.cards@[i].hi
            - self.cards@[i].lo by {
            assert(self.cards@[i].lo < self.cards@[i].hi);
        }
        Shared::of(&self.cards, self.inter, self.r0, &parts)
    }

    /// Judges a call of the block as a multiply is judged.
    pub fn judge(&mut self, class: usize, c: Compared, offload: bool) -> (new: bool)
        requires
            class < 2,
            old(self).wf(),
        ensures
            final(self).wf(),
            final(self).inter == old(self).inter,
            final(self).r0 == old(self).r0,
            final(self).cards@ == old(self).cards@,
            final(self).ids@ == old(self).ids@,
            final(self).never == old(self).never,
            offload ==> !new && final(self).bad@ == old(self).bad@ && final(self).avoid@
                == old(self).avoid@,
            !offload ==> {
                &&& final(self).bad@ == old(self).bad@.update(
                    class as int,
                    judge::judged_bad(old(self).bad[class as int], c) as u32,
                )
                &&& final(self).avoid@ == old(self).avoid@.update(
                    class as int,
                    old(self).avoid[class as int] || new,
                )
                &&& new == (!old(self).avoid[class as int] && !(c is NoLonger)
                    && judge::judged_bad(old(self).bad[class as int], c) >= 2)
            },
    {
        if offload {
            return false;
        }
        let was: bool = self.avoid[class];
        let r: (u32, bool) = judge::judge(self.bad[class], was, c);
        self.bad[class] = r.0;
        self.avoid[class] = r.1;
        r.1 && !was
    }
}

/// A card's part of a block is whole superblocks, and so is the host's part
/// of its run.
pub proof fn law_whole_superblocks(s: FfnSplit, blocks: Seq<u64>, i: int)
    requires
        s.wf(),
        blocks.len() == s.cards@.len(),
        0 <= i < s.cards@.len(),
    ensures
        s.spec_parts(blocks)[i] % QK == 0,
        (s.cards@[i].hi - s.cards@[i].lo - s.spec_parts(blocks)[i]) % QK as int == 0,
{
    assert(s.cards@[i].lo % QK == 0 && s.cards@[i].lo < s.cards@[i].hi);
}

/// The descriptor of a card's part of a block: `rows` rows of the run of
/// `run` that it keeps under the ids.
pub open spec fn spec_request(
    b: FfnArgs,
    ids: [u64; 3],
    run: u64,
    rows: u64,
    half: bool,
    h16: bool,
) -> Ffn {
    Ffn {
        gate_id: ids[0],
        up_id: ids[1],
        down_id: ids[2],
        gate_type: b.gate_type,
        up_type: b.up_type,
        down_type: b.down_type,
        b_type: if half {
            1
        } else {
            0
        },
        rows,
        k: b.k,
        m_out: b.m_out,
        n: b.n,
        nb_gate: b.nb_gate,
        nb_up: b.nb_up,
        nb_down: weights::spec_row_bytes(b.down_type, run as int) as u64,
        nb_b: b.spec_stride(half) as u64,
        b_off: OFF_B,
        d_off: OFF_D,
        chunk: 0,
        h_type: if h16 {
            1
        } else {
            0
        },
        pad: 0,
    }
}

/// The descriptor of a card's part of a block; `h16` is whether the card
/// keeps the intermediate as float16, which overflows past 65504.
pub fn request(b: &FfnArgs, ids: [u64; 3], run: u64, rows: u64, half: bool, h16: bool) -> (f: Ffn)
    requires
        b.wf(),
        run <= b.inter,
    ensures
        f == spec_request(*b, ids, run, rows, half, h16),
{
    Ffn {
        gate_id: ids[0],
        up_id: ids[1],
        down_id: ids[2],
        gate_type: b.gate_type,
        up_type: b.up_type,
        down_type: b.down_type,
        b_type: if half {
            1
        } else {
            0
        },
        rows,
        k: b.k,
        m_out: b.m_out,
        n: b.n,
        nb_gate: b.nb_gate,
        nb_up: b.nb_up,
        nb_down: row_bytes(b.down_type, run),
        nb_b: b.stride(half),
        b_off: OFF_B,
        d_off: OFF_D,
        chunk: 0,
        h_type: if h16 {
            1
        } else {
            0
        },
        pad: 0,
    }
}

impl Shares {
    /// Begins a call of a block: counts it, and where the cards take no part
    /// in it, why.
    pub fn begin_block(&mut self, fate: Fate)
        requires
            old(self).wf(),
        ensures
            final(self).wf(),
            final(self).same_splits(*old(self)),
            final(self).calls == share::counted(old(self).calls, 1),
            final(self).too_small == (if fate is NotWorth {
                share::counted(old(self).too_small, 1)
            } else {
                old(self).too_small
            }),
            final(self).host_only == (if fate is PastLimits {
                share::counted(old(self).host_only, 1)
            } else {
                old(self).host_only
            }),
            final(self).host_read == old(self).host_read,
            final(self).host_ranges@ == old(self).host_ranges@,
    {
        self.calls = counted(self.calls, 1);
        match fate {
            Fate::NotWorth => {
                self.too_small = counted(self.too_small, 1);
            },
            Fate::PastLimits => {
                self.host_only = counted(self.host_only, 1);
            },
            Fate::Empty => {},
            Fate::Share => {},
        }
    }

    /// The block's input was found past a half's range, so it goes as
    /// float32: to every card where that fits the window, or else the cards
    /// take no part.
    pub fn block_past_half(&mut self, block: &FfnArgs) -> (fits: bool)
        requires
            old(self).wf(),
            block.wf(),
        ensures
            final(self).wf(),
            final(self).same_splits(*old(self)),
            fits == block.acts_fit(false),
            final(self).calls == old(self).calls,
            final(self).too_small == old(self).too_small,
            final(self).host_only == (if fits {
                old(self).host_only
            } else {
                share::counted(old(self).host_only, 1)
            }),
            final(self).host_read == old(self).host_read,
            final(self).host_ranges@ == old(self).host_ranges@,
    {
        if block.fits(false) {
            return true;
        }
        self.host_only = counted(self.host_only, 1);
        false
    }

    /// The cards take their parts of a block: the host's runs of the
    /// intermediate are its ranges.
    pub fn share_block(&mut self, ranges: Vec<(u64, u64)>)
        requires
            old(self).wf(),
        ensures
            final(self).wf(),
            final(self).same_splits(*old(self)),
            final(self).host_ranges@ == ranges@,
            final(self).calls == old(self).calls,
            final(self).too_small == old(self).too_small,
            final(self).host_only == old(self).host_only,
            final(self).host_read == old(self).host_read,
    {
        self.host_ranges = ranges;
    }
}

/// The fused request in flight on a card: its sequence number and the shape
/// of the partial it returns.
#[derive(Clone, Copy, PartialEq, Eq, Structural, Debug)]
pub struct FfnPending {
    pub seq: u64,
    pub m_out: u64,
    pub n: u64,
}

impl FfnPending {
    /// Where row `p` of a card's partial begins in the card's window.
    pub open spec fn spec_from(self, p: int) -> int {
        OFF_D + p * self.m_out * 4
    }

    /// The two places, in the window and in a result whose rows are `nb_y`
    /// bytes apart, of row `p`.
    pub fn places(&self, p: u64, nb_y: u64) -> (r: (u64, u64))
        requires
            p < self.n,
            self.spec_from(p as int) <= u64::MAX,
            p * nb_y <= u64::MAX,
        ensures
            r.0 == self.spec_from(p as int),
            r.1 == p * nb_y,
    {
        proof {
            share::lemma_product(p, self.m_out);
        }
        (OFF_D + p * self.m_out * 4, p * nb_y)
    }
}

/// A card's partial stays in the window's result area.
pub proof fn law_partial_in_area(b: FfnArgs, p: int)
    requires
        b.result_fits(),
        0 <= p < b.n,
    ensures
        (FfnPending { seq: 0, m_out: b.m_out, n: b.n }).spec_from(p) + b.m_out * 4 <= OFF_D + D_MAX,
{
    let n = b.n as int;
    let m = b.m_out as int;
    assert((p + 1) * m <= n * m) by (nonlinear_arith)
        requires
            0 <= p < n,
            0 <= m,
    ;
    assert(p * m * 4 + m * 4 == (p + 1) * m * 4) by (nonlinear_arith);
}

} // verus!
