//! What a multiply's measured times say of the next ones: whether the cards
//! pay for themselves on a tensor, and how much of its slice each card should
//! take at a batch. The times are the caller's; it hands in how they compare.
use crate::ggml::plan::Split;
use crate::ggml::share::{PP_STEPS, PP_WINDOW};
use vstd::prelude::*;

verus! {

/// How a multiply with the cards compared with what the host alone would
/// have taken.
#[derive(Clone, Copy, PartialEq, Eq, Structural, Debug)]
pub enum Compared {
    /// No longer.
    NoLonger,
    /// Longer.
    Longer,
    /// Longer by about a third or more.
    PlainlyLonger,
}

/// The count of bad multiplies in a row, after one more.
pub open spec fn judged_bad(bad: u32, c: Compared) -> int {
    match c {
        Compared::NoLonger => 0,
        Compared::Longer => if bad < u32::MAX {
            bad + 1
        } else {
            u32::MAX as int
        },
        Compared::PlainlyLonger => if bad < u32::MAX - 1 {
            bad + 2
        } else {
            u32::MAX as int
        },
    }
}

/// Judges one more multiply: the count of bad ones in a row, and whether the
/// host keeps such multiplies from now on. Plainly worse settles
/// it at once; a hair worse twice running also does.
pub fn judge(bad: u32, avoid: bool, c: Compared) -> (r: (u32, bool))
    ensures
        r.0 == judged_bad(bad, c),
        r.1 == (avoid || (!(c is NoLonger) && judged_bad(bad, c) >= 2)),
{
    match c {
        Compared::NoLonger => (0, avoid),
        Compared::Longer => {
            let b: u32 = if bad < u32::MAX {
                bad + 1
            } else {
                bad
            };
            (b, avoid || b >= 2)
        },
        Compared::PlainlyLonger => {
            let b: u32 = if bad < u32::MAX - 1 {
                bad + 2
            } else {
                u32::MAX
            };
            (b, true)
        },
    }
}

impl Split {
    /// Judges a multiply of the tensor: whether it is left to the host from
    /// now on and was not before.
    pub fn judge(&mut self, class: usize, c: Compared) -> (new: bool)
        requires
            class < 2,
            old(self).wf(),
        ensures
            final(self).wf(),
            final(self).m == old(self).m,
            final(self).r0 == old(self).r0,
            final(self).cards@ == old(self).cards@,
            final(self).bad@ == old(self).bad@.update(
                class as int,
                judged_bad(old(self).bad[class as int], c) as u32,
            ),
            final(self).avoid@ == old(self).avoid@.update(
                class as int,
                old(self).avoid[class as int] || new,
            ),
            new == (!old(self).avoid[class as int] && !(c is NoLonger) && judged_bad(
                old(self).bad[class as int],
                c,
            ) >= 2),
    {
        let was: bool = self.avoid[class];
        let r: (u32, bool) = judge(self.bad[class], was, c);
        self.bad[class] = r.0;
        self.avoid[class] = r.1;
        r.1 && !was
    }
}

/// Two multiplies in a row that the cards made longer, or one that they made
/// plainly longer, and the tensor is left to the host; one that they did not
/// make longer, and the counting starts anew.
pub proof fn law_two_in_a_row(bad: u32, c: Compared)
    ensures
        c is PlainlyLonger ==> judged_bad(bad, c) >= 2,
        c is Longer ==> (judged_bad(bad, c) >= 2 <==> bad >= 1),
        c is NoLonger ==> judged_bad(bad, c) == 0,
{
}

/// When the batch share moves: after each window of batch multiplies, until
/// it has moved so often that it is left alone, so it settles rather than
/// hunting. Never after one call: a card's time for the same work varies
/// with the state of its thread pool by more than the difference measured.
#[derive(Clone, Copy, PartialEq, Eq, Structural, Debug)]
pub struct Pace {
    /// Whether the share follows what the two sides measure at all.
    pub adapt: bool,
    /// Batch multiplies since it last moved.
    pub seen: u32,
    /// How often it has moved.
    pub steps: u32,
}

/// What becomes of one batch multiply's measurement.
#[derive(Clone, Copy, PartialEq, Eq, Structural, Debug)]
pub enum Heed {
    /// It is not looked at.
    Ignore,
    /// It is added to the window's sum.
    Gather,
    /// It completes the window: the share is to be moved by the sum.
    Move,
}

impl Pace {
    pub open spec fn wf(self) -> bool {
        self.seen < PP_WINDOW && self.steps <= PP_STEPS
    }

    pub fn new(adapt: bool) -> (p: Pace)
        ensures
            p.wf(),
            p == (Pace { adapt, seen: 0, steps: 0 }),
    {
        Pace { adapt, seen: 0, steps: 0 }
    }

    /// One batch multiply, `timed` being whether a card measured any time.
    pub fn feed(&mut self, timed: bool) -> (h: Heed)
        requires
            old(self).wf(),
        ensures
            final(self).wf(),
            ({
                let ignored = !old(self).adapt || old(self).steps >= PP_STEPS || !timed;
                if ignored {
                    h is Ignore && *final(self) == *old(self)
                } else if old(self).seen + 1 < PP_WINDOW {
                    h is Gather && *final(self) == (Pace {
                        seen: (old(self).seen + 1) as u32,
                        ..*old(self)
                    })
                } else {
                    h is Move && *final(self) == (Pace { seen: 0, ..*old(self) })
                }
            }),
    {
        if !self.adapt || self.steps >= PP_STEPS || !timed {
            return Heed::Ignore;
        }
        if self.seen + 1 < PP_WINDOW {
            self.seen = self.seen + 1;
            return Heed::Gather;
        }
        self.seen = 0;
        Heed::Move
    }

    /// The share was moved, if it came to another value.
    pub fn moved(&mut self, changed: bool)
        requires
            old(self).wf(),
            changed ==> old(self).steps < PP_STEPS,
        ensures
            final(self).wf(),
            *final(self) == (if changed {
                Pace { steps: (old(self).steps + 1) as u32, ..*old(self) }
            } else {
                *old(self)
            }),
    {
        if changed {
            self.steps = self.steps + 1;
        }
    }
}

} // verus!
