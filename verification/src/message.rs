//! The ephemeral message bus: short-lived status text with lazy expiry.
//!
//! `set_message` stores the text with a capture of the current time.
//! `current_message` returns the text only while less than the time-to-live
//! has elapsed since the capture; the first poll at or past the deadline
//! clears the text as a side effect, and later polls stay empty.  There is
//! no timer: expiry happens only when polled, so an unpolled message simply
//! persists.

use vstd::prelude::*;

verus! {

/// How long a message stays readable, in milliseconds.
pub const MESSAGE_TTL_MILLIS: u64 = 5000;

/// Whether a message captured at `stamp` is still readable at `now`
/// (both in milliseconds of one monotonic clock).
pub open spec fn live_at(stamp: int, now: int) -> bool {
    now < stamp + MESSAGE_TTL_MILLIS
}

/// The bus: at most one pending message and its capture time.
pub struct MessageBus {
    text: Option<String>,
    stamp_millis: u64,
}

impl MessageBus {
    /// The stored text, if one is pending.
    pub closed spec fn stored(&self) -> Option<Seq<char>> {
        match self.text {
            Some(ref s) => Some(s@),
            None => None,
        }
    }

    /// When the pending message was captured, in clock milliseconds.
    pub closed spec fn stamp(&self) -> int {
        self.stamp_millis as int
    }

    /// An empty bus.
    pub fn new() -> (b: Self)
        ensures
            b.stored() is None,
    {
        MessageBus { text: None, stamp_millis: 0 }
    }

    /// Stores `text`, capturing `now_millis` as its birth time.  Any earlier
    /// message is replaced.
    pub fn set_message(&mut self, text: String, now_millis: u64)
        ensures
            final(self).stored() == Some(text@),
            final(self).stamp() == now_millis as int,
    {
        self.text = Some(text);
        self.stamp_millis = now_millis;
    }

    /// Polls the bus at `now_millis`.  Returns the stored text while it is
    /// live; once the time-to-live has elapsed, returns nothing and clears
    /// the text, so later polls stay empty without a new `set_message`.
    /// A clock reading before the capture (only possible across clock
    /// domains) counts as no elapsed time.
    pub fn current_message(&mut self, now_millis: u64) -> (r: Option<String>)
        ensures
            old(self).stored() is Some && live_at(old(self).stamp(), now_millis as int) ==> {
                &&& (r matches Some(s) ==> Some(s@) == old(self).stored())
                &&& r is Some
                &&& *final(self) == *old(self)
            },
            !(old(self).stored() is Some && live_at(old(self).stamp(), now_millis as int)) ==> {
                &&& r is None
                &&& final(self).stored() is None
            },
    {
        let live = match &self.text {
            Some(_) => now_millis < self.stamp_millis || now_millis - self.stamp_millis
                < MESSAGE_TTL_MILLIS,
            None => false,
        };
        if live {
            match &self.text {
                Some(s) => Some(s.clone()),
                None => None,
            }
        } else {
            self.text = None;
            None
        }
    }
}

impl Default for MessageBus {
    fn default() -> (b: Self)
        ensures
            b.stored() is None,
    {
        MessageBus::new()
    }
}

/// Message time-to-live: a message polled at its capture time is live, and
/// a poll at or past the deadline finds it expired.  (That poll clears the
/// bus, so by `current_message`'s contract every later poll reads empty.)
pub proof fn lemma_message_ttl(stamp: int, now: int)
    ensures
        live_at(stamp, stamp),
        now >= stamp + MESSAGE_TTL_MILLIS ==> !live_at(stamp, now),
{
}

} // verus!
