use crate::strmap::Duplicate;
use crate::study::Message;
use crate::time::{deadline_after, deadline_spec};
use vstd::prelude::*;

verus! {

/// How long, in milliseconds, a subscriber lives without a poll.
pub const HEARTBEAT_WINDOW_MS: u64 = 3_600_000;

/// The per-study number of a subscriber, handed out densely from zero.
#[derive(Clone, Copy, Debug, PartialEq, Eq, Hash, Structural)]
pub struct SubscribeId(pub u32);

impl SubscribeId {
    /// The first id.
    pub fn new() -> (r: SubscribeId)
        ensures
            r.0 == 0,
    {
        SubscribeId(0)
    }

    /// Hands out the current id and moves to the next one.
    pub fn next(&mut self) -> (r: SubscribeId)
        requires
            old(self).0 < u32::MAX,
        ensures
            r == *old(self),
            final(self).0 == old(self).0 + 1,
    {
        let x = SubscribeId(self.0);
        self.0 = self.0 + 1;
        x
    }

    pub fn from_u32(v: u32) -> (r: SubscribeId)
        ensures
            r.0 == v,
    {
        SubscribeId(v)
    }
}

/// A poller of a study's events: its expiry deadline (monotonic milliseconds)
/// and the events not yet handed to it, oldest first.
#[derive(Debug)]
pub struct Subscriber {
    pub expiry_time: u64,
    pub messages: Vec<Message>,
}

impl Subscriber {
    /// A subscriber seen at `now`, with nothing buffered.
    pub fn new(now: u64) -> (r: Subscriber)
        ensures
            r.expiry_time == deadline_spec(now, HEARTBEAT_WINDOW_MS),
            r.messages@ == Seq::<Message>::empty(),
    {
        Subscriber { messages: Vec::new(), expiry_time: deadline_after(now, HEARTBEAT_WINDOW_MS) }
    }

    pub fn push_message(&mut self, message: Message)
        ensures
            final(self).expiry_time == old(self).expiry_time,
            final(self).messages@ == old(self).messages@.push(message),
    {
        self.messages.push(message);
    }

    /// Takes every buffered event, oldest first.
    pub fn pop_messages(&mut self) -> (r: Vec<Message>)
        ensures
            r@ == old(self).messages@,
            final(self).messages@ == Seq::<Message>::empty(),
            final(self).expiry_time == old(self).expiry_time,
    {
        let r = self.messages.split_off(0);
        assert(r@ =~= old(self).messages@);
        r
    }

    /// Records a poll at `now`: the subscriber lives a full window more.
    pub fn heartbeat(&mut self, now: u64)
        ensures
            final(self).expiry_time == deadline_spec(now, HEARTBEAT_WINDOW_MS),
            final(self).messages@ == old(self).messages@,
    {
        self.expiry_time = deadline_after(now, HEARTBEAT_WINDOW_MS);
    }

    /// Whether the subscriber's expiry has been reached at `now`.
    pub fn has_expired(&self, now: u64) -> (r: bool)
        ensures
            r == (self.expiry_time <= now),
    {
        self.expiry_time <= now
    }
}

/// A subscriber polled at `last_poll` is still alive at any `now` less than a
/// full heartbeat window later: polled more often than once a window, it
/// never expires (short of the end of the millisecond clock, where deadlines
/// saturate).
pub proof fn lemma_heartbeat_keeps_alive(last_poll: u64, now: u64)
    requires
        last_poll <= now,
        now - last_poll < HEARTBEAT_WINDOW_MS,
        last_poll <= u64::MAX - HEARTBEAT_WINDOW_MS,
    ensures
        !(deadline_spec(last_poll, HEARTBEAT_WINDOW_MS) <= now),
{
}

/// The subscribers of one study, in order of subscription, and the next id.
#[derive(Debug)]
pub struct Subscribers {
    pub next_id: SubscribeId,
    pub entries: Vec<(SubscribeId, Subscriber)>,
}

pub open spec fn ids_below(s: Seq<(SubscribeId, Subscriber)>, n: u32) -> bool {
    &&& forall|i: int| 0 <= i < s.len() ==> (#[trigger] s[i]).0.0 < n
    &&& forall|i: int, j: int| 0 <= i < j < s.len() ==> (#[trigger] s[i]).0.0 < (#[trigger] s[j]).0.0
}

/// Every buffer after `m` is appended to it.
pub open spec fn pushed(old_s: Seq<(SubscribeId, Subscriber)>, new_s: Seq<(SubscribeId, Subscriber)>, m: Message) -> bool {
    &&& new_s.len() == old_s.len()
    &&& forall|i: int| 0 <= i < old_s.len() ==> {
        &&& (#[trigger] new_s[i]).0 == old_s[i].0
        &&& new_s[i].1.expiry_time == old_s[i].1.expiry_time
        &&& new_s[i].1.messages@ == old_s[i].1.messages@.push(m)
    }
}

/// The subscribers whose expiry is after `now`, in order.
pub open spec fn alive(s: Seq<(SubscribeId, Subscriber)>, now: u64) -> Seq<(SubscribeId, Subscriber)>
    decreases s.len(),
{
    if s.len() == 0 {
        s
    } else if s.last().1.expiry_time <= now {
        alive(s.drop_last(), now)
    } else {
        alive(s.drop_last(), now).push(s.last())
    }
}

/// The position of subscriber `id`, if present.
pub open spec fn position_of(s: Seq<(SubscribeId, Subscriber)>, id: SubscribeId) -> Option<int> {
    if exists|i: int| 0 <= i < s.len() && s[i].0 == id {
        Some(choose|i: int| 0 <= i < s.len() && s[i].0 == id)
    } else {
        None
    }
}

proof fn lemma_alive_ids(s: Seq<(SubscribeId, Subscriber)>, now: u64, n: u32)
    requires
        ids_below(s, n),
    ensures
        ids_below(alive(s, now), n),
        alive(s, now).len() <= s.len(),
        forall|i: int| 0 <= i < alive(s, now).len() ==> exists|j: int| 0 <= j < s.len() && s[j] == #[trigger] alive(s, now)[i],
    decreases s.len(),
{
    if s.len() > 0 {
        let t = s.drop_last();
        assert(ids_below(t, n)) by {
            assert forall|i: int, j: int| 0 <= i < j < t.len() implies (#[trigger] t[i]).0.0 < (#[trigger] t[j]).0.0 by {
                assert(t[i] == s[i] && t[j] == s[j]);
            }
            assert forall|i: int| 0 <= i < t.len() implies (#[trigger] t[i]).0.0 < n by {
                assert(t[i] == s[i]);
            }
        }
        lemma_alive_ids(t, now, n);
        let a = alive(t, now);
        assert forall|i: int| 0 <= i < a.len() implies exists|j: int| 0 <= j < s.len() && s[j] == #[trigger] a[i] by {
            let j = choose|j: int| 0 <= j < t.len() && t[j] == a[i];
            assert(s[j] == t[j]);
        }
        if !(s.last().1.expiry_time <= now) {
            let b = a.push(s.last());
            assert forall|i: int| 0 <= i < a.len() implies (#[trigger] a[i]).0.0 < s.last().0.0 by {
                let j = choose|j: int| 0 <= j < s.len() && s[j] == a[i];
                assert(j < s.len() - 1) by {
                    if j == s.len() - 1 {
                        assert(j < t.len());
                    }
                };
                assert(s[j].0.0 < s[s.len() - 1].0.0);
            }
            assert forall|i: int, j: int| 0 <= i < j < b.len() implies (#[trigger] b[i]).0.0 < (#[trigger] b[j]).0.0 by {
                if j == b.len() - 1 {
                    assert(b[i] == a[i]);
                } else {
                    assert(b[i] == a[i] && b[j] == a[j]);
                }
            }
            assert forall|i: int| 0 <= i < b.len() implies exists|j: int| 0 <= j < s.len() && s[j] == #[trigger] b[i] by {
                if i == b.len() - 1 {
                    assert(s[s.len() - 1] == b[i]);
                } else {
                    assert(b[i] == a[i]);
                    let j = choose|j: int| 0 <= j < s.len() && s[j] == a[i];
                }
            }
        }
    }
}

impl Subscribers {
    pub open spec fn wf(&self) -> bool {
        ids_below(self.entries@, self.next_id.0)
    }

    pub fn new() -> (r: Subscribers)
        ensures
            r.wf(),
            r.next_id.0 == 0,
            r.entries@ == Seq::<(SubscribeId, Subscriber)>::empty(),
    {
        Subscribers { next_id: SubscribeId::new(), entries: Vec::new() }
    }

    pub fn len(&self) -> (r: usize)
        ensures
            r == self.entries@.len(),
    {
        self.entries.len()
    }

    /// Adds a subscriber seen at `now` whose buffer starts with `history`,
    /// under the next id; none once every id has been handed out.
    pub fn subscribe(&mut self, now: u64, history: Vec<Message>) -> (r: Option<SubscribeId>)
        requires
            old(self).wf(),
        ensures
            final(self).wf(),
            old(self).next_id.0 == u32::MAX ==> r is None && *final(self) == *old(self),
            old(self).next_id.0 < u32::MAX ==> {
                &&& r == Some(old(self).next_id)
                &&& final(self).next_id.0 == old(self).next_id.0 + 1
                &&& final(self).entries@.len() == old(self).entries@.len() + 1
                &&& final(self).entries@.drop_last() == old(self).entries@
                &&& final(self).entries@.last().0 == old(self).next_id
                &&& final(self).entries@.last().1.expiry_time == deadline_spec(now, HEARTBEAT_WINDOW_MS)
                &&& final(self).entries@.last().1.messages@ == history@
            },
    {
        if self.next_id.0 == u32::MAX {
            return None;
        }
        let id = self.next_id.next();
        let s = Subscriber { messages: history, expiry_time: deadline_after(now, HEARTBEAT_WINDOW_MS) };
        let ghost before = self.entries@;
        self.entries.push((id, s));
        assert(self.entries@.drop_last() =~= before);
        assert(ids_below(self.entries@, self.next_id.0)) by {
            assert forall|i: int| 0 <= i < self.entries@.len() implies (#[trigger] self.entries@[i]).0.0 < self.next_id.0 by {
                if i < before.len() {
                    assert(self.entries@[i] == before[i]);
                }
            }
            assert forall|i: int, j: int| 0 <= i < j < self.entries@.len() implies (#[trigger] self.entries@[i]).0.0 < (#[trigger] self.entries@[j]).0.0 by {
                assert(self.entries@[i] == before[i]);
                if j < before.len() {
                    assert(self.entries@[j] == before[j]);
                }
            }
        }
        Some(id)
    }

    /// Appends `message` to every subscriber's buffer.
    pub fn push(&mut self, message: &Message)
        requires
            old(self).wf(),
        ensures
            final(self).wf(),
            final(self).next_id == old(self).next_id,
            pushed(old(self).entries@, final(self).entries@, *message),
    {
        let mut rest = self.entries.split_off(0);
        let ghost whole = rest@;
        assert(whole =~= old(self).entries@);
        let mut out: Vec<(SubscribeId, Subscriber)> = Vec::new();
        while rest.len() > 0
            invariant
                whole == old(self).entries@,
                out@.len() + rest@.len() == whole.len(),
                rest@ == whole.subrange(out@.len() as int, whole.len() as int),
                forall|j: int| 0 <= j < out@.len() ==> {
                    &&& (#[trigger] out@[j]).0 == whole[j].0
                    &&& out@[j].1.expiry_time == whole[j].1.expiry_time
                    &&& out@[j].1.messages@ == whole[j].1.messages@.push(*message)
                },
            decreases rest@.len(),
        {
            let ghost k = out@.len() as int;
            let (id, mut sub) = rest.remove(0);
            assert(whole[k] == (id, sub));
            sub.push_message(message.duplicate());
            out.push((id, sub));
            assert(rest@ =~= whole.subrange(out@.len() as int, whole.len() as int));
        }
        self.entries = out;
        assert(ids_below(self.entries@, self.next_id.0)) by {
            assert forall|i: int| 0 <= i < self.entries@.len() implies (#[trigger] self.entries@[i]).0.0 < self.next_id.0 by {
                assert(self.entries@[i].0 == whole[i].0);
            }
            assert forall|i: int, j: int| 0 <= i < j < self.entries@.len() implies (#[trigger] self.entries@[i]).0.0 < (#[trigger] self.entries@[j]).0.0 by {
                assert(self.entries@[i].0 == whole[i].0);
                assert(self.entries@[j].0 == whole[j].0);
            }
        }
    }

    /// Hands subscriber `id` its buffered events and records the poll at
    /// `now`; none if there is no such subscriber.
    pub fn poll(&mut self, id: SubscribeId, now: u64) -> (r: Option<Vec<Message>>)
        requires
            old(self).wf(),
        ensures
            final(self).wf(),
            final(self).next_id == old(self).next_id,
            match position_of(old(self).entries@, id) {
                None => r is None && final(self).entries@ == old(self).entries@,
                Some(i) => {
                    &&& r is Some
                    &&& r->0@ == old(self).entries@[i].1.messages@
                    &&& final(self).entries@.len() == old(self).entries@.len()
                    &&& final(self).entries@[i].0 == id
                    &&& final(self).entries@[i].1.messages@ == Seq::<Message>::empty()
                    &&& final(self).entries@[i].1.expiry_time == deadline_spec(now, HEARTBEAT_WINDOW_MS)
                    &&& forall|j: int| 0 <= j < old(self).entries@.len() && j != i ==> #[trigger] final(self).entries@[j] == old(self).entries@[j]
                },
            },
    {
        let ghost before = self.entries@;
        let mut i: usize = 0;
        while i < self.entries.len()
            invariant
                i <= self.entries@.len(),
                self.entries@ == before,
                before == old(self).entries@,
                ids_below(before, old(self).next_id.0),
                self.next_id == old(self).next_id,
                forall|j: int| 0 <= j < i ==> (#[trigger] before[j]).0 != id,
            decreases before.len() - i,
        {
            if self.entries[i].0 == id {
                proof {
                    assert(position_of(before, id) == Some(i as int)) by {
                        let k = choose|k: int| 0 <= k < before.len() && before[k].0 == id;
                        if k != i {
                            if k < i {
                                assert(before[k].0.0 < before[i as int].0.0);
                            } else {
                                assert(before[i as int].0.0 < before[k].0.0);
                            }
                        }
                    }
                }
                let (sid, mut s) = self.entries.remove(i);
                s.heartbeat(now);
                let msgs = s.pop_messages();
                self.entries.insert(i, (sid, s));
                assert forall|j: int| 0 <= j < before.len() && j != i implies #[trigger] self.entries@[j] == before[j] by {}
                assert(ids_below(self.entries@, self.next_id.0)) by {
                    assert forall|a: int| 0 <= a < self.entries@.len() implies (#[trigger] self.entries@[a]).0.0 < self.next_id.0 by {
                        assert(self.entries@[a].0 == before[a].0);
                    }
                    assert forall|a: int, b: int| 0 <= a < b < self.entries@.len() implies (#[trigger] self.entries@[a]).0.0 < (#[trigger] self.entries@[b]).0.0 by {
                        assert(self.entries@[a].0 == before[a].0);
                        assert(self.entries@[b].0 == before[b].0);
                    }
                }
                return Some(msgs);
            }
            i = i + 1;
        }
        None
    }

    /// Removes the subscribers whose expiry has been reached at `now`, keeping
    /// the order of the others.
    pub fn sweep(&mut self, now: u64)
        requires
            old(self).wf(),
        ensures
            final(self).wf(),
            final(self).next_id == old(self).next_id,
            final(self).entries@ == alive(old(self).entries@, now),
    {
        let mut rest = self.entries.split_off(0);
        let ghost whole = rest@;
        assert(whole =~= old(self).entries@);
        let mut kept: Vec<(SubscribeId, Subscriber)> = Vec::new();
        let mut i: usize = 0;
        let n = rest.len();
        while rest.len() > 0
            invariant
                n == whole.len(),
                whole == old(self).entries@,
                i + rest@.len() == whole.len(),
                rest@ == whole.subrange(i as int, whole.len() as int),
                kept@ == alive(whole.subrange(0, i as int), now),
            decreases rest@.len(),
        {
            let e = rest.remove(0);
            assert(whole[i as int] == e);
            assert(whole.subrange(0, i + 1).drop_last() =~= whole.subrange(0, i as int));
            if !e.1.has_expired(now) {
                kept.push(e);
            }
            i = i + 1;
            assert(rest@ =~= whole.subrange(i as int, whole.len() as int));
        }
        assert(whole.subrange(0, i as int) =~= whole);
        proof {
            lemma_alive_ids(whole, now, self.next_id.0);
        }
        self.entries = kept;
    }
}

/// An accepted mutation reaches every subscriber that existed when it was
/// accepted exactly once: it is appended once to each buffer, which the next
/// poll hands out whole; a buffer that did not hold it holds it once.
pub proof fn lemma_delivered_once(before: Seq<(SubscribeId, Subscriber)>, after: Seq<(SubscribeId, Subscriber)>, m: Message, i: int)
    requires
        pushed(before, after, m),
        0 <= i < before.len(),
    ensures
        after[i].0 == before[i].0,
        after[i].1.messages@.drop_last() == before[i].1.messages@,
        after[i].1.messages@.last() == m,
        after[i].1.messages@.to_multiset().count(m) == before[i].1.messages@.to_multiset().count(m) + 1,
        !before[i].1.messages@.contains(m) ==> after[i].1.messages@.to_multiset().count(m) == 1,
{
    let a = before[i].1.messages@;
    assert(after[i].1.messages@ == a.push(m));
    assert(a.push(m).drop_last() =~= a);
    a.to_multiset_ensures();
    if !a.contains(m) {
        assert(a.to_multiset().count(m) == 0);
    }
}

/// The sweep at `now` keeps exactly the subscribers whose expiry lies after
/// `now`: every one of them stays, and every one that stays is one of them.
pub proof fn lemma_sweep_keeps_alive(s: Seq<(SubscribeId, Subscriber)>, now: u64)
    ensures
        forall|i: int| 0 <= i < s.len() && (#[trigger] s[i]).1.expiry_time > now ==> alive(s, now).contains(s[i]),
        forall|i: int| 0 <= i < alive(s, now).len() ==> (#[trigger] alive(s, now)[i]).1.expiry_time > now && s.contains(alive(s, now)[i]),
    decreases s.len(),
{
    if s.len() > 0 {
        let t = s.drop_last();
        lemma_sweep_keeps_alive(t, now);
        let a = alive(t, now);
        assert forall|i: int| 0 <= i < s.len() && (#[trigger] s[i]).1.expiry_time > now implies alive(s, now).contains(s[i]) by {
            if i < t.len() {
                assert(t[i] == s[i]);
                let j = choose|j: int| 0 <= j < a.len() && a[j] == t[i];
                if !(s.last().1.expiry_time <= now) {
                    assert(a.push(s.last())[j] == s[i]);
                }
            } else {
                assert(a.push(s.last())[a.len() as int] == s[i]);
            }
        }
        assert forall|i: int| 0 <= i < alive(s, now).len() implies (#[trigger] alive(s, now)[i]).1.expiry_time > now
            && s.contains(alive(s, now)[i]) by {
            let x = alive(s, now)[i];
            if i < a.len() {
                assert(x == a[i]);
                let j = choose|j: int| 0 <= j < t.len() && t[j] == a[i];
                assert(s[j] == t[j]);
            } else {
                assert(x == s[s.len() - 1]);
            }
        }
    }
}

} // verus!
