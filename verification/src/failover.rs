//! Rolling a live channel over to its next stream URL when the one playing dies.
//!
//! A channel can have several URLs, best bet first at the time of tuning. When the
//! player reports an error the session moves to the next one — but only so many
//! times, because a provider having a total outage would otherwise spin through every
//! URL it owns for ever, and a stopped picture with an error on it is more honest than
//! an endless reconnect.

use vstd::prelude::*;

verus! {

/// How many times one tune may roll over before giving up.
pub const MAX_ROLLOVERS: u32 = 6;

/// Where a live session is in its list of URLs.
#[derive(Debug, Clone, Copy, PartialEq, Eq)]
pub struct Rollover {
    /// How many URLs the channel has.
    pub candidates: usize,
    /// The one currently loaded.
    pub current: usize,
    /// How many times this tune has rolled over already.
    pub rollovers: u32,
}

/// What to do when the URL playing fails.
#[derive(Debug, Clone, Copy, PartialEq, Eq)]
pub enum Recovery {
    /// The session has rolled over as often as it may: leave the error up, and the
    /// session as it is.
    Capped,
    /// Every URL has been tried: leave the error up and end the session, so the next
    /// deliberate tune reads the order afresh.
    Exhausted,
    /// Load this URL next.
    Next(usize),
}

/// The next step after a failure: capped once the rollovers are spent, exhausted past
/// the last URL, otherwise the next URL in the list.
pub open spec fn spec_recovery(s: Rollover) -> Recovery {
    if s.rollovers >= MAX_ROLLOVERS {
        Recovery::Capped
    } else if s.current + 1 >= s.candidates {
        Recovery::Exhausted
    } else {
        Recovery::Next((s.current + 1) as usize)
    }
}

impl Rollover {
    /// A fresh tune, loading URL `current` of `candidates`.
    pub fn new(candidates: usize, current: usize) -> (r: Self)
        ensures
            r == (Rollover { candidates, current, rollovers: 0 }),
    {
        Rollover { candidates, current, rollovers: 0 }
    }

    /// Decide what to do now that the URL playing has failed, moving to the next URL
    /// when there is one to move to.
    pub fn recover(&mut self) -> (r: Recovery)
        ensures
            r == spec_recovery(*old(self)),
            *final(self) == match r {
                Recovery::Next(i) => Rollover {
                    current: i,
                    rollovers: (old(self).rollovers + 1) as u32,
                    ..*old(self)
                },
                _ => *old(self),
            },
    {
        if self.rollovers >= MAX_ROLLOVERS {
            return Recovery::Capped;
        }
        if self.current >= self.candidates || self.candidates - self.current <= 1 {
            return Recovery::Exhausted;
        }
        let next = self.current + 1;
        self.current = next;
        self.rollovers = self.rollovers + 1;
        Recovery::Next(next)
    }
}

/// A dying provider cannot keep the player reconnecting: from a fresh tune, however the
/// failures come, the session moves forward through the list and stops after at most
/// `MAX_ROLLOVERS` rollovers, never loading the same URL twice.
pub proof fn lemma_rollovers_are_bounded(s: Rollover)
    requires
        s.rollovers <= MAX_ROLLOVERS,
    ensures
        spec_recovery(s) matches Recovery::Next(i) ==> {
            &&& s.current < i < s.candidates
            &&& s.rollovers + 1 <= MAX_ROLLOVERS
        },
        s.rollovers == MAX_ROLLOVERS ==> spec_recovery(s) == Recovery::Capped,
{
}

} // verus!
