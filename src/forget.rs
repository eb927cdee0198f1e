use crate::ids::MessageId;
use crate::time::{deadline_after, deadline_spec};
use vstd::prelude::*;

verus! {

/// How long, in milliseconds, a received message stays retained by the overlay.
pub const FORGET_DELAY_MS: u64 = 60_000;

/// Messages waiting to be forgotten by the overlay, oldest first, each with the
/// deadline (monotonic milliseconds) after which it may go.
#[derive(Debug)]
pub struct ForgetQueue {
    pub entries: Vec<(u64, MessageId)>,
}

impl ForgetQueue {
    pub fn new() -> (r: ForgetQueue)
        ensures
            r.entries@ == Seq::<(u64, MessageId)>::empty(),
    {
        ForgetQueue { entries: Vec::new() }
    }

    /// Schedules `mid`, received at `now`, to be forgotten a delay later.
    pub fn push(&mut self, now: u64, mid: MessageId)
        ensures
            final(self).entries@ == old(self).entries@.push((deadline_spec(now, FORGET_DELAY_MS), mid)),
    {
        self.entries.push((deadline_after(now, FORGET_DELAY_MS), mid));
    }

    /// Takes from the front every message whose deadline is before `now`,
    /// stopping at the first that is not yet due.
    pub fn pop_due(&mut self, now: u64) -> (r: Vec<MessageId>)
        ensures
            r@.len() <= old(self).entries@.len(),
            final(self).entries@ == old(self).entries@.subrange(r@.len() as int, old(self).entries@.len() as int),
            forall|i: int| 0 <= i < r@.len() ==> (#[trigger] r@[i]) == old(self).entries@[i].1,
            forall|i: int| 0 <= i < r@.len() ==> (#[trigger] old(self).entries@[i]).0 < now,
            r@.len() < old(self).entries@.len() ==> !(old(self).entries@[r@.len() as int].0 < now),
    {
        let ghost whole = self.entries@;
        let mut out: Vec<MessageId> = Vec::new();
        while self.entries.len() > 0 && self.entries[0].0 < now
            invariant
                out@.len() <= whole.len(),
                self.entries@ == whole.subrange(out@.len() as int, whole.len() as int),
                forall|i: int| 0 <= i < out@.len() ==> (#[trigger] out@[i]) == whole[i].1,
                forall|i: int| 0 <= i < out@.len() ==> (#[trigger] whole[i]).0 < now,
            decreases self.entries@.len(),
        {
            let e = self.entries.remove(0);
            assert(whole[out@.len() as int] == e);
            out.push(e.1);
            assert(self.entries@ =~= whole.subrange(out@.len() as int, whole.len() as int));
        }
        out
    }
}

} // verus!
