//! The shared window as the host sees it: which accesses are inside it,
//! whether the card's worker is polling, and how a request is rung and its
//! answer recognised. The mapping itself, the clock and the sleeping are the
//! caller's.
use crate::bits;
use crate::text;
use crate::vpu::matmul::status_name;
use crate::vpu::matmul;
use crate::vpu::proto::{Reply, Request, MAGIC, OK};
use vstd::prelude::*;

verus! {

/// Whether `len` bytes at `off` are inside a window of `size` bytes.
pub fn inside(off: u64, len: usize, size: usize) -> (r: bool)
    ensures
        r == (off + len <= size),
{
    off <= size as u64 && len as u64 <= size as u64 - off
}

/// Is the card's worker polling? The word stays in the window after a worker
/// dies, so it is cleared before it is asked for: a live worker re-asserts
/// it on every poll.
pub fn worker_ready(word: u64) -> (r: bool)
    ensures
        r == (word == MAGIC),
{
    word == MAGIC
}

/// A request that is ready to be rung.
///
/// The request fields are written first, then a fence, then the sequence
/// number, which is the only word the card polls. The card writes its reply
/// fields and then the echoed sequence number last, so seeing the number
/// means the rest of the reply is there.
#[derive(Clone, Copy, PartialEq, Eq, Structural, Debug)]
pub struct Doorbell {
    /// The request as it is staged: it carries the number already there.
    pub staged: Request,
    /// The number that rings.
    pub seq: u64,
}

/// Stages a request behind the sequence number the window holds.
pub fn stage(held: u64, req: Request) -> (d: Doorbell)
    requires
        held < u64::MAX,
    ensures
        d.seq == held + 1,
        d.staged == (Request { seq: held, ..req }),
{
    Doorbell { staged: Request { seq: held, ..req }, seq: held + 1 }
}

/// A request for one piece of work on `threads` threads of the card.
pub fn one(kernel: u32, threads: u32) -> (r: Request)
    ensures
        r == (Request {
            seq: 0,
            kernel,
            threads,
            n: 1,
            in_off: 0,
            out_off: 0,
            aux_off: 0,
            aux_len: 0,
        }),
{
    Request { seq: 0, kernel, threads, n: 1, in_off: 0, out_off: 0, aux_off: 0, aux_len: 0 }
}

/// Staging changes nothing the card polls: the sequence number stays what it
/// was. Ringing then changes that number and nothing else.
pub proof fn law_ringing_changes_the_number_only(held: u64, req: Request)
    requires
        held < u64::MAX,
    ensures
        (Request { seq: held, ..req }).spec_bytes().take(8) == bits::le64(held),
        (Request { seq: (held + 1) as u64, ..req }).spec_bytes() == bits::le64((held + 1) as u64)
            + (Request { seq: held, ..req }).spec_bytes().skip(8),
{
    assert((Request { seq: held, ..req }).spec_bytes().take(8) =~= bits::le64(held));
    assert((Request { seq: (held + 1) as u64, ..req }).spec_bytes() =~= bits::le64(
        (held + 1) as u64,
    ) + (Request { seq: held, ..req }).spec_bytes().skip(8));
}

/// What a look at the window says of a request.
#[derive(Clone, Copy, PartialEq, Eq, Structural, Debug)]
pub enum Answer {
    /// Answered.
    Ready(Reply),
    /// Not yet.
    Pending,
    /// Not in time.
    Late,
}

/// What one look at the reply says of the request `seq`, `late` being
/// whether its time is over. An answer that is there is taken even when it
/// is late.
pub fn look(seq: u64, reply: Reply, late: bool) -> (a: Answer)
    ensures
        a == (if reply.seq == seq {
            Answer::Ready(reply)
        } else if late {
            Answer::Late
        } else {
            Answer::Pending
        }),
{
    if reply.seq == seq {
        Answer::Ready(reply)
    } else if late {
        Answer::Late
    } else {
        Answer::Pending
    }
}

/// The card's word on a request, or why it refused.
pub fn accept(reply: Reply) -> (r: Result<Reply, &'static str>)
    ensures
        match r {
            Ok(ok) => reply.status == OK && ok == reply,
            Err(why) => reply.status != OK && why@ == matmul::spec_status_name(reply.status),
        },
{
    if reply.status == OK {
        Ok(reply)
    } else {
        Err(status_name(reply.status))
    }
}

/// A card's refusal, with the card.
pub open spec fn refusal_text(card: usize, why: Seq<char>) -> Seq<char> {
    "card "@ + text::decimal(card as nat) + ": "@ + why
}

/// A card's refusal, with the card.
pub fn refusal(card: usize, why: &str) -> (m: String)
    ensures
        m@ == refusal_text(card, why@),
{
    let mut m = String::from_str("card ");
    text::push_decimal(&mut m, card as u64);
    m.append(": ");
    m.append(why);
    m
}

} // verus!
