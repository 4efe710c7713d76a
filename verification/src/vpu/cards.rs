//! Which card, and where its window is. The naming comes from the cards'
//! software stack: a card is an index 0 to 15, and the daemon of card N pins
//! its host-memory window at `/dev/shm/phi-hostmem` for card 0 and
//! `/dev/shm/phi-hostmem-N` after. `PHI_CARD` in the environment selects one
//! for every tool. This is the only fact about the stack the co-processor's
//! host side needs, so it is restated rather than depended on.
use crate::text;
use vstd::prelude::*;

verus! {

/// The stack addresses at most this many cards (subnets and ports are
/// derived from the index there).
pub const MAX_CARDS: usize = 16;

/// The environment variable naming the card.
pub const ENV_CARD: &'static str = "PHI_CARD";

/// Why no card is named.
#[derive(Clone, PartialEq, Eq, Debug)]
pub enum CardError {
    /// The stack cannot address this index.
    OutOfRange(usize),
    /// The environment variable's value is no index.
    NotAnIndex(String),
}

impl CardError {
    pub open spec fn spec_message(&self) -> Seq<char> {
        match self {
            CardError::OutOfRange(i) => "card index "@ + text::decimal(*i as nat)
                + " is out of range (0 to 15)"@,
            CardError::NotAnIndex(s) => "PHI_CARD="@ + s@ + " is not a card index"@,
        }
    }

    /// What is wrong, in words.
    pub fn message(&self) -> (m: String)
        ensures
            m@ == self.spec_message(),
    {
        match self {
            CardError::OutOfRange(i) => {
                let mut m = String::from_str("card index ");
                text::push_decimal(&mut m, *i as u64);
                m.append(" is out of range (0 to 15)");
                m
            },
            CardError::NotAnIndex(s) => {
                let mut m = String::from_str("PHI_CARD=");
                m.append(s.as_str());
                m.append(" is not a card index");
                m
            },
        }
    }
}

/// The card's host-memory window as the host sees it.
pub open spec fn spec_hostmem_path(index: usize) -> Seq<char> {
    if index == 0 {
        "/dev/shm/phi-hostmem"@
    } else {
        "/dev/shm/phi-hostmem-"@ + text::decimal(index as nat)
    }
}

/// The card's host-memory window as the host sees it.
pub fn hostmem_path(index: usize) -> (p: String)
    ensures
        p@ == spec_hostmem_path(index),
{
    if index == 0 {
        String::from_str("/dev/shm/phi-hostmem")
    } else {
        let mut p = String::from_str("/dev/shm/phi-hostmem-");
        text::push_decimal(&mut p, index as u64);
        p
    }
}

/// Refuse an index the stack cannot address.
pub fn check_index(index: usize) -> (r: Result<(), CardError>)
    ensures
        r == (if index < MAX_CARDS {
            Ok(())
        } else {
            Err(CardError::OutOfRange(index))
        }),
{
    if index >= MAX_CARDS {
        Err(CardError::OutOfRange(index))
    } else {
        Ok(())
    }
}

/// The index a text names, as far as it is one.
pub open spec fn index_of(s: Seq<char>) -> Option<int> {
    text::number(text::codes(s), 10)
}

/// The card that the value of `PHI_CARD` names, if it is set.
pub fn index_from_env(value: Option<&str>) -> (r: Result<Option<usize>, CardError>)
    ensures
        value is None ==> r == Ok::<Option<usize>, CardError>(None),
        value is Some ==> (match index_of(value->0@) {
            Some(i) => if i < MAX_CARDS {
                r matches Ok(Some(n)) && n == i
            } else {
                r matches Err(CardError::OutOfRange(n)) && n == i
            },
            None => r matches Err(CardError::NotAnIndex(s)) && s@ == value->0@,
        }),
{
    match value {
        None => Ok(None),
        Some(s) => {
            let c = text::codes_of(s);
            match text::parse_number(&c, 10) {
                Some(i) => match check_index(i) {
                    Ok(_) => Ok(Some(i)),
                    Err(e) => Err(e),
                },
                None => Err(CardError::NotAnIndex(s.to_owned())),
            }
        },
    }
}

/// The window that a command line and the environment name: the one given,
/// else the window of the card given, else of the card `PHI_CARD` names,
/// else of card 0.
pub fn window_path(window: Option<&str>, card: Option<usize>, env: Option<&str>) -> (r: Result<
    String,
    CardError,
>)
    ensures
        window is Some ==> (r matches Ok(p) && p@ == window->0@),
        window is None && card is Some ==> (if card->0 < MAX_CARDS {
            r matches Ok(p) && p@ == spec_hostmem_path(card->0)
        } else {
            r == Err::<String, CardError>(CardError::OutOfRange(card->0))
        }),
        window is None && card is None && env is None ==> (r matches Ok(p) && p@
            == spec_hostmem_path(0)),
        window is None && card is None && env is Some ==> (match index_of(env->0@) {
            Some(i) => if i < MAX_CARDS {
                r matches Ok(p) && p@ == spec_hostmem_path(i as usize)
            } else {
                r matches Err(CardError::OutOfRange(n)) && n == i
            },
            None => r matches Err(CardError::NotAnIndex(s)) && s@ == env->0@,
        }),
{
    match window {
        Some(w) => Ok(w.to_owned()),
        None => match card {
            Some(i) => match check_index(i) {
                Ok(_) => Ok(hostmem_path(i)),
                Err(e) => Err(e),
            },
            None => match index_from_env(env) {
                Ok(Some(i)) => Ok(hostmem_path(i)),
                Ok(None) => Ok(hostmem_path(0)),
                Err(e) => Err(e),
            },
        },
    }
}

} // verus!
