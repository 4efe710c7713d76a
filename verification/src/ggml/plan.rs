//! How a weight tensor's rows are shared: the host keeps the first rows, each
//! card keeps a run of the rest resident in its memory. The uploads are the
//! caller's; what each card is offered, and what becomes of the split when
//! the card takes it or refuses, is decided here.
use crate::vpu::matmul::A_MAX;
use std::collections::HashMap;
use vstd::prelude::*;

verus! {

broadcast use vstd::std_specs::hash::group_hash_axioms;

/// The host's rows stay a multiple of this: ggml's fast paths want that.
pub const ROWS: u64 = 64;

/// A card's resident rows of a tensor.
#[derive(Clone, Copy, PartialEq, Eq, Structural, Debug)]
pub struct Slice {
    /// Which card.
    pub card: usize,
    /// The rows `lo..hi`.
    pub lo: u64,
    pub hi: u64,
}

/// What a card keeps.
pub struct Card {
    /// Resident row slices, by the weight tensor's address: the id.
    pub ids: HashMap<usize, u64>,
    pub next_id: u64,
    pub uploaded: u64,
    pub budget: u64,
    /// No more uploads: the budget is spent or the card refused one.
    pub full: bool,
}

impl Card {
    /// A card that keeps nothing yet.
    pub fn new(budget: u64) -> (c: Card)
        ensures
            c.ids@ == Map::<usize, u64>::empty(),
            c.next_id == 1,
            c.uploaded == 0,
            c.budget == budget,
            !c.full,
    {
        Card { ids: HashMap::new(), next_id: 1, uploaded: 0, budget, full: false }
    }

    /// Whether nothing but the ids, which are unordered, and those given
    /// here, differ.
    pub open spec fn like(self, next_id: u64, uploaded: u64, full: bool, before: Card) -> bool {
        &&& self.next_id == next_id
        &&& self.uploaded == uploaded
        &&& self.full == full
        &&& self.budget == before.budget
    }

    /// Lets go of everything.
    pub fn clear(&mut self)
        ensures
            final(self).ids@ == Map::<usize, u64>::empty(),
            final(self).like(old(self).next_id, 0, false, *old(self)),
    {
        self.ids.clear();
        self.uploaded = 0;
        self.full = false;
    }

    /// The id under which the card keeps rows of the tensor at `key`.
    pub fn id_of(&self, key: usize) -> (r: Option<u64>)
        ensures
            r == (if self.ids@.contains_key(key) {
                Some(self.ids@[key])
            } else {
                None
            }),
    {
        match self.ids.get(&key) {
            Some(id) => Some(*id),
            None => None,
        }
    }

    /// The card has taken `bytes` bytes under the next id, or it has
    /// refused, and then it keeps no more.
    pub fn settle(&mut self, bytes: u64, taken: bool) -> (id: Option<u64>)
        requires
            taken ==> old(self).next_id < u64::MAX && old(self).uploaded + bytes <= u64::MAX,
        ensures
            final(self).ids@ == old(self).ids@,
            taken ==> id == Some(old(self).next_id) && final(self).like(
                (old(self).next_id + 1) as u64,
                (old(self).uploaded + bytes) as u64,
                old(self).full,
                *old(self),
            ),
            !taken ==> id is None && final(self).like(
                old(self).next_id,
                old(self).uploaded,
                true,
                *old(self),
            ),
    {
        if taken {
            let id: u64 = self.next_id;
            self.next_id = id + 1;
            self.uploaded = self.uploaded + bytes;
            Some(id)
        } else {
            self.full = true;
            None
        }
    }

    /// The card is to let go of its rows of the tensor at `key`, `bytes`
    /// bytes: the id it keeps them under. With their room back it takes
    /// uploads again.
    pub fn forget(&mut self, key: usize, bytes: u64) -> (id: Option<u64>)
        ensures
            old(self).ids@.contains_key(key) ==> {
                &&& id == Some(old(self).ids@[key])
                &&& final(self).ids@ == old(self).ids@.remove(key)
                &&& final(self).like(
                    old(self).next_id,
                    if old(self).uploaded >= bytes {
                        (old(self).uploaded - bytes) as u64
                    } else {
                        0
                    },
                    false,
                    *old(self),
                )
            },
            !old(self).ids@.contains_key(key) ==> {
                &&& id is None
                &&& final(self).ids@ == old(self).ids@
                &&& final(self).like(
                    old(self).next_id,
                    old(self).uploaded,
                    old(self).full,
                    *old(self),
                )
            },
    {
        match self.ids.remove(&key) {
            Some(id) => {
                self.release(bytes);
                self.full = false;
                Some(id)
            },
            None => {
                assert(self.ids@ =~= old(self).ids@);
                None
            },
        }
    }

    /// The card has let go of `bytes` bytes.
    pub fn release(&mut self, bytes: u64)
        ensures
            final(self).ids@ == old(self).ids@,
            final(self).like(
                old(self).next_id,
                if old(self).uploaded >= bytes {
                    (old(self).uploaded - bytes) as u64
                } else {
                    0
                },
                old(self).full,
                *old(self),
            ),
    {
        self.uploaded = if self.uploaded >= bytes {
            self.uploaded - bytes
        } else {
            0
        };
    }
}

/// `x` rounded down to the host's row multiple.
#[verifier::allow_in_spec]
pub fn whole(x: u64) -> u64
    returns
        (x - x % 64) as u64,
{
    x - x % 64
}

/// The rows a card is offered of the `lo` that are left, when it should take
/// `want` of them and each takes `unit` bytes of its window's weight area:
/// what was wanted, as far as there are rows and room, and then so many more
/// that the host is left a multiple of 64, or, where those more would not
/// fit, so many fewer.
pub open spec fn offered_rows(want: u64, lo: u64, unit: u64) -> int {
    let room: int = if unit == 0 {
        lo as int
    } else {
        (A_MAX / unit) as int
    };
    let rows = if want <= room && want <= lo {
        want as int
    } else if room <= lo {
        room
    } else {
        lo as int
    };
    let more = lo - whole((lo - rows) as u64);
    if more * unit <= A_MAX {
        more
    } else if more >= 64 {
        more - 64
    } else {
        0
    }
}

/// What is offered is there, fits the window's weight area, and leaves the
/// host a multiple of 64 rows, unless nothing is offered.
pub proof fn law_offer(want: u64, lo: u64, unit: u64)
    ensures
        0 <= offered_rows(want, lo, unit) <= lo,
        offered_rows(want, lo, unit) * unit <= A_MAX,
        offered_rows(want, lo, unit) > 0 ==> (lo - offered_rows(want, lo, unit)) % 64 == 0,
{
    let room: int = if unit == 0 {
        lo as int
    } else {
        (A_MAX / unit) as int
    };
    let rows = if want <= room && want <= lo {
        want as int
    } else if room <= lo {
        room
    } else {
        lo as int
    };
    let more = lo - whole((lo - rows) as u64);
    let u = unit as int;
    assert(0 <= rows <= lo);
    assert(rows <= more < rows + 64);
    assert(rows * u <= A_MAX) by {
        if unit == 0 {
            assert(rows * u == 0) by (nonlinear_arith)
                requires
                    u == 0,
            ;
        } else {
            assert(rows * u <= A_MAX) by (nonlinear_arith)
                requires
                    0 <= rows <= A_MAX as int / u,
                    u > 0,
            ;
        }
    }
    if more * u > A_MAX {
        if more >= 64 {
            assert((more - 64) * u <= rows * u) by (nonlinear_arith)
                requires
                    more - 64 <= rows,
                    u >= 0,
            ;
        } else {
            assert(0 * u == 0);
        }
    }
}

fn offered(want: u64, lo: u64, unit: u64) -> (r: u64)
    ensures
        r == offered_rows(want, lo, unit),
{
    let room: u64 = if unit == 0 {
        lo
    } else {
        A_MAX / unit
    };
    let rows: u64 = if want <= room && want <= lo {
        want
    } else if room <= lo {
        room
    } else {
        lo
    };
    let more: u64 = lo - whole(lo - rows);
    assert(more * unit <= u64::MAX as int * u64::MAX as int) by (nonlinear_arith)
        requires
            more <= u64::MAX,
            unit <= u64::MAX,
    ;
    assert(more * unit >= 0) by (nonlinear_arith);
    let bytes: u128 = more as u128 * unit as u128;
    if bytes <= A_MAX as u128 {
        more
    } else if more >= 64 {
        more - 64
    } else {
        0
    }
}

/// What a card is asked to keep of a tensor.
#[derive(Clone, Copy, PartialEq, Eq, Structural, Debug)]
pub enum Offer {
    /// Nothing: it takes no more, or no rows are left for it.
    Nothing,
    /// Nothing: its budget is spent, and from now on it takes no more.
    Spent,
    /// The rows `from..from + rows`, `bytes` bytes over all experts.
    Rows { from: u64, rows: u64, bytes: u64 },
}

/// A split under way: `lo` rows are left, the cards so far keep the rest.
pub struct Plan {
    /// Rows of the tensor.
    pub m: u64,
    /// Bytes a row takes: of every expert's matrix, in a mixture.
    pub unit: u64,
    pub lo: u64,
    pub cards: Vec<Slice>,
}

/// Where slice `i` ends: where the one before begins.
pub open spec fn above(cards: Seq<Slice>, m: u64, i: int) -> u64 {
    if i == 0 {
        m
    } else {
        cards[i - 1].lo
    }
}

/// Whether the slices are runs of rows from `m` down to `lo`, each next to
/// the one before.
pub open spec fn stacked(cards: Seq<Slice>, m: u64, lo: u64) -> bool {
    &&& lo <= m
    &&& forall|i: int| 0 <= i < cards.len() ==> (#[trigger] cards[i]).lo < cards[i].hi
    &&& forall|i: int| 0 <= i < cards.len() ==> cards[i].hi == #[trigger] above(cards, m, i)
    &&& cards.len() == 0 ==> lo == m
    &&& cards.len() > 0 ==> cards.last().lo == lo
}

impl Plan {
    /// The slices so far are stacked below the last row, and what is left is
    /// a multiple of 64 rows, or everything.
    pub open spec fn wf(self) -> bool {
        &&& stacked(self.cards@, self.m, self.lo)
        &&& self.lo % 64 == 0 || self.lo == self.m
        &&& self.m * self.unit <= u64::MAX
    }

    /// A tensor of `m` rows, none of them on a card yet.
    pub fn new(m: u64, unit: u64) -> (p: Plan)
        requires
            m * unit <= u64::MAX,
        ensures
            p.wf(),
            p.m == m,
            p.unit == unit,
            p.lo == m,
            p.cards@ == Seq::<Slice>::empty(),
    {
        Plan { m, unit, lo: m, cards: Vec::new() }
    }

    /// What a card is offered: the share `want` of the rows, from the top of
    /// those left, if it has the budget.
    pub fn offer(&self, card: &mut Card, want: u64) -> (o: Offer)
        requires
            self.wf(),
        ensures
            final(card).ids@ == old(card).ids@,
            final(card).like(
                old(card).next_id,
                old(card).uploaded,
                old(card).full || o is Spent,
                *old(card),
            ),
            ({
                let rows = offered_rows(want, self.lo, self.unit);
                o == (if old(card).full || rows == 0 {
                    Offer::Nothing
                } else if old(card).uploaded + rows * self.unit > old(card).budget {
                    Offer::Spent
                } else {
                    Offer::Rows {
                        from: (self.lo - rows) as u64,
                        rows: rows as u64,
                        bytes: (rows * self.unit) as u64,
                    }
                })
            }),
    {
        if card.full {
            return Offer::Nothing;
        }
        let rows: u64 = offered(want, self.lo, self.unit);
        proof {
            law_offer(want, self.lo, self.unit);
        }
        if rows == 0 {
            return Offer::Nothing;
        }
        let bytes: u64 = rows * self.unit;
        if card.uploaded > card.budget || bytes > card.budget - card.uploaded {
            card.full = true;
            return Offer::Spent;
        }
        Offer::Rows { from: self.lo - rows, rows, bytes }
    }

    /// The card `ci` answered the offer of `rows` rows of the tensor at
    /// `key`: it keeps them under the next id, or it refused and keeps no
    /// more.
    pub fn answered(&mut self, card: &mut Card, ci: usize, key: usize, rows: u64, taken: bool)
        requires
            old(self).wf(),
            0 < rows <= old(self).lo,
            (old(self).lo - rows) % 64 == 0,
            old(card).next_id < u64::MAX,
            old(card).uploaded + rows * old(self).unit <= u64::MAX,
        ensures
            final(self).wf(),
            final(self).m == old(self).m,
            final(self).unit == old(self).unit,
            taken ==> {
                &&& final(self).lo == old(self).lo - rows
                &&& final(self).cards@ == old(self).cards@.push(
                    (Slice { card: ci, lo: final(self).lo, hi: old(self).lo }),
                )
                &&& final(card).ids@ == old(card).ids@.insert(key, old(card).next_id)
                &&& final(card).like(
                    (old(card).next_id + 1) as u64,
                    (old(card).uploaded + rows * old(self).unit) as u64,
                    old(card).full,
                    *old(card),
                )
            },
            !taken ==> {
                &&& final(self).lo == old(self).lo
                &&& final(self).cards@ == old(self).cards@
                &&& final(card).ids@ == old(card).ids@
                &&& final(card).like(old(card).next_id, old(card).uploaded, true, *old(card))
            },
    {
        let u: u64 = self.unit;
        let m: u64 = self.m;
        assert(rows * u <= m * u) by (nonlinear_arith)
            requires
                rows <= m,
                u >= 0,
        ;
        let id: Option<u64> = card.settle(rows * u, taken);
        match id {
            Some(id) => {
                card.ids.insert(key, id);
                let hi: u64 = self.lo;
                self.lo = hi - rows;
                let ghost before = self.cards@;
                self.cards.push(Slice { card: ci, lo: hi - rows, hi });
                assert forall|i: int| 0 <= i < self.cards@.len() implies self.cards@[i].hi
                    == #[trigger] above(self.cards@, m, i) by {
                    if i < before.len() {
                        assert(before[i].hi == above(before, m, i));
                    }
                }
            },
            None => {},
        }
    }
}

/// How a tensor's rows are shared: the host takes `0..r0`, the cards their
/// slices.
pub struct Split {
    pub m: u64,
    pub r0: u64,
    pub cards: Vec<Slice>,
    /// How often the cards have lately been found not to pay for themselves
    /// on this tensor, at one token and at a batch: a multiply smaller than
    /// a card's latency is finished by the host before a card answers, which
    /// is most of a mixture of experts at generation. Counted up from what
    /// the last calls measured, not from a rule about shapes.
    pub bad: [u32; 2],
    /// Whether the host keeps it therefore.
    pub avoid: [bool; 2],
}

impl Split {
    /// The slices are stacked from the last row down to the host's, which are
    /// a multiple of 64, or everything.
    pub open spec fn wf(self) -> bool {
        &&& stacked(self.cards@, self.m, self.r0)
        &&& self.r0 % 64 == 0 || self.r0 == self.m
    }

    /// The split that a plan has come to.
    pub fn of(p: Plan) -> (s: Split)
        requires
            p.wf(),
        ensures
            s.wf(),
            s.m == p.m,
            s.r0 == p.lo,
            s.cards@ == p.cards@,
            s.bad@ == seq![0u32, 0u32],
            s.avoid@ == seq![false, false],
    {
        Split { m: p.m, r0: p.lo, cards: p.cards, bad: [0, 0], avoid: [false, false] }
    }

    /// A tensor that is the host's alone.
    pub fn host_only(m: u64) -> (s: Split)
        ensures
            s.wf(),
            s.m == m,
            s.r0 == m,
            s.cards@ == Seq::<Slice>::empty(),
            s.bad@ == seq![0u32, 0u32],
            s.avoid@ == seq![false, false],
    {
        Split { m, r0: m, cards: Vec::new(), bad: [0, 0], avoid: [false, false] }
    }
}

/// Whether row `r` is in slice `i`.
pub open spec fn holds(cards: Seq<Slice>, i: int, r: int) -> bool {
    0 <= i < cards.len() && cards[i].lo <= r < cards[i].hi
}

/// Every row of a tensor is the host's or exactly one card's: the host's
/// where it is below `r0`, a card's otherwise.
pub proof fn law_rows_are_shared_out(s: Split, r: int)
    requires
        s.wf(),
        0 <= r < s.m,
    ensures
        r < s.r0 ==> forall|i: int| !#[trigger] holds(s.cards@, i, r),
        r >= s.r0 ==> exists|i: int| #[trigger] holds(s.cards@, i, r),
        forall|i: int, j: int| #[trigger] holds(s.cards@, i, r) && #[trigger] holds(s.cards@, j, r) ==> i == j,
{
    let c = s.cards@;
    assert forall|i: int, j: int| 0 <= i < j < c.len() implies (#[trigger] c[j]).hi <= (#[trigger] c[i]).lo by {
        lemma_stack_order(c, s.m, s.r0, i, j);
    }
    if r < s.r0 {
        assert forall|i: int| !#[trigger] holds(c, i, r) by {
            if 0 <= i < c.len() {
                if i < c.len() - 1 {
                    assert(c[c.len() - 1].hi <= c[i].lo);
                }
                assert(c[i].lo >= s.r0);
            }
        }
    } else {
        lemma_found(c, s.m, s.r0, r, c.len() as int);
    }
}

/// A later slice is below an earlier one.
proof fn lemma_stack_order(c: Seq<Slice>, m: u64, lo: u64, i: int, j: int)
    requires
        stacked(c, m, lo),
        0 <= i < j < c.len(),
    ensures
        c[j].hi <= c[i].lo,
    decreases j - i,
{
    if i < j - 1 {
        lemma_stack_order(c, m, lo, i, j - 1);
        assert(c[j - 1].lo < c[j - 1].hi);
    }
    assert(c[j].hi == above(c, m, j));
}

/// A row from the lowest of the first `n` slices on is in one of them.
proof fn lemma_found(c: Seq<Slice>, m: u64, lo: u64, r: int, n: int)
    requires
        stacked(c, m, lo),
        0 <= n <= c.len(),
        r < m,
        n == 0 ==> r >= m,
        n > 0 ==> c[n - 1].lo <= r,
    ensures
        exists|i: int| #[trigger] holds(c, i, r),
    decreases n,
{
    if r < c[n - 1].hi {
        assert(holds(c, n - 1, r));
    } else {
        assert(c[n - 1].hi == above(c, m, n - 1));
        lemma_found(c, m, lo, r, n - 1);
    }
}

} // verus!
