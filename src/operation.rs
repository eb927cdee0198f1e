use crate::ids::{mid_lt, MessageId, TrialId};
use crate::study::{timestamp_of, Message};
use crate::time::{ts_lt, Timestamp};
use vstd::prelude::*;

verus! {

/// Which attribute of a study or trial a mutation writes.
#[derive(Clone, Copy, Debug, PartialEq, Eq, Hash, Structural)]
pub enum OperationKind {
    SetStudyDirection,
    SetStudyUserAttr,
    SetStudySystemAttr,
    CreateTrial,
    SetTrialState,
    SetTrialParam,
    SetTrialValue,
    SetTrialIntermediateValue,
    SetTrialUserAttr,
    SetTrialSystemAttr,
}

/// The slot that a mutation writes: its kind, the trial it is about (if any),
/// and the sub-key (an attribute or parameter name, or a step), if any.
/// Mutations of one slot supersede each other; others are independent.
#[derive(Debug)]
pub struct OperationKey {
    pub kind: OperationKind,
    pub trial_id: Option<TrialId>,
    pub name: Option<String>,
    pub step: Option<u32>,
}

/// An operation key as a value: names compared by their characters.
pub type KeyView = (OperationKind, Option<TrialId>, Option<Seq<char>>, Option<u32>);

impl View for OperationKey {
    type V = KeyView;

    open spec fn view(&self) -> KeyView {
        (
            self.kind,
            self.trial_id,
            match self.name {
                Some(n) => Some(n@),
                None => None,
            },
            self.step,
        )
    }
}

/// The slot that a message writes.
pub open spec fn key_of(m: Message) -> KeyView {
    match m {
        Message::SetStudyDirection { .. } => (OperationKind::SetStudyDirection, None, None, None),
        Message::SetStudyUserAttr { key, .. } => (OperationKind::SetStudyUserAttr, None, Some(key@), None),
        Message::SetStudySystemAttr { key, .. } => (OperationKind::SetStudySystemAttr, None, Some(key@), None),
        Message::CreateTrial { trial_id, .. } => (OperationKind::CreateTrial, Some(trial_id), None, None),
        Message::SetTrialState { trial_id, .. } => (OperationKind::SetTrialState, Some(trial_id), None, None),
        Message::SetTrialParam { trial_id, key, .. } => (OperationKind::SetTrialParam, Some(trial_id), Some(key@), None),
        Message::SetTrialValue { trial_id, .. } => (OperationKind::SetTrialValue, Some(trial_id), None, None),
        Message::SetTrialIntermediateValue { trial_id, step, .. } => (
            OperationKind::SetTrialIntermediateValue,
            Some(trial_id),
            None,
            Some(step),
        ),
        Message::SetTrialUserAttr { trial_id, key, .. } => (OperationKind::SetTrialUserAttr, Some(trial_id), Some(key@), None),
        Message::SetTrialSystemAttr { trial_id, key, .. } => (
            OperationKind::SetTrialSystemAttr,
            Some(trial_id),
            Some(key@),
            None,
        ),
    }
}

impl OperationKey {
    /// The slot that `m` writes.
    pub fn from_message(m: &Message) -> (r: OperationKey)
        ensures
            r@ == key_of(*m),
    {
        match m {
            Message::SetStudyDirection { .. } => OperationKey {
                kind: OperationKind::SetStudyDirection,
                trial_id: None,
                name: None,
                step: None,
            },
            Message::SetStudyUserAttr { key, .. } => OperationKey {
                kind: OperationKind::SetStudyUserAttr,
                trial_id: None,
                name: Some(key.clone()),
                step: None,
            },
            Message::SetStudySystemAttr { key, .. } => OperationKey {
                kind: OperationKind::SetStudySystemAttr,
                trial_id: None,
                name: Some(key.clone()),
                step: None,
            },
            Message::CreateTrial { trial_id, .. } => OperationKey {
                kind: OperationKind::CreateTrial,
                trial_id: Some(*trial_id),
                name: None,
                step: None,
            },
            Message::SetTrialState { trial_id, .. } => OperationKey {
                kind: OperationKind::SetTrialState,
                trial_id: Some(*trial_id),
                name: None,
                step: None,
            },
            Message::SetTrialParam { trial_id, key, .. } => OperationKey {
                kind: OperationKind::SetTrialParam,
                trial_id: Some(*trial_id),
                name: Some(key.clone()),
                step: None,
            },
            Message::SetTrialValue { trial_id, .. } => OperationKey {
                kind: OperationKind::SetTrialValue,
                trial_id: Some(*trial_id),
                name: None,
                step: None,
            },
            Message::SetTrialIntermediateValue { trial_id, step, .. } => OperationKey {
                kind: OperationKind::SetTrialIntermediateValue,
                trial_id: Some(*trial_id),
                name: None,
                step: Some(*step),
            },
            Message::SetTrialUserAttr { trial_id, key, .. } => OperationKey {
                kind: OperationKind::SetTrialUserAttr,
                trial_id: Some(*trial_id),
                name: Some(key.clone()),
                step: None,
            },
            Message::SetTrialSystemAttr { trial_id, key, .. } => OperationKey {
                kind: OperationKind::SetTrialSystemAttr,
                trial_id: Some(*trial_id),
                name: Some(key.clone()),
                step: None,
            },
        }
    }

    /// Whether two keys name the same slot.
    pub fn same(&self, other: &OperationKey) -> (r: bool)
        ensures
            r == (self@ == other@),
    {
        if self.kind != other.kind {
            return false;
        }
        let t = match (&self.trial_id, &other.trial_id) {
            (Some(a), Some(b)) => *a == *b,
            (None, None) => true,
            _ => false,
        };
        if !t {
            return false;
        }
        let n = match (&self.name, &other.name) {
            (Some(a), Some(b)) => *a == *b,
            (None, None) => true,
            _ => false,
        };
        if !n {
            return false;
        }
        match (&self.step, &other.step) {
            (Some(a), Some(b)) => *a == *b,
            (None, None) => true,
            _ => false,
        }
    }
}

/// A write, by its timestamp and the id of the message that carried it.
#[derive(Clone, Copy, Debug, PartialEq, Eq, Structural)]
pub struct Operation {
    pub timestamp: Timestamp,
    pub mid: MessageId,
}

/// The last-writer-wins order: by timestamp, ties broken by message id.
pub open spec fn op_lt(a: Operation, b: Operation) -> bool {
    ts_lt(a.timestamp, b.timestamp) || (a.timestamp == b.timestamp && mid_lt(a.mid, b.mid))
}

impl Operation {
    /// The write that message `m`, delivered with id `mid`, makes.
    pub fn new(mid: MessageId, m: &Message) -> (r: Operation)
        ensures
            r == (Operation { timestamp: timestamp_of(*m), mid }),
    {
        Operation { mid, timestamp: m.timestamp() }
    }

    pub fn lt(&self, other: &Operation) -> (r: bool)
        ensures
            r == op_lt(*self, *other),
    {
        self.timestamp.lt(&other.timestamp) || (self.timestamp == other.timestamp && self.mid.lt(&other.mid))
    }
}

/// Whether an incoming write takes effect.
#[derive(Clone, Copy, Debug, PartialEq, Eq, Structural)]
pub enum AcceptDecision {
    Accept,
    Reject,
}

/// The outcome of observing a write: the decision, the message that the
/// overlay may forget, and the ledger afterwards.
pub open spec fn observe_spec(m: Map<KeyView, Operation>, k: KeyView, op: Operation) -> (
    AcceptDecision,
    Option<MessageId>,
    Map<KeyView, Operation>,
) {
    if !m.contains_key(k) {
        (AcceptDecision::Accept, None, m.insert(k, op))
    } else if op_lt(m[k], op) {
        (AcceptDecision::Accept, if m[k].mid != op.mid { Some(m[k].mid) } else { None }, m.insert(k, op))
    } else {
        (AcceptDecision::Reject, if m[k].mid != op.mid { Some(op.mid) } else { None }, m)
    }
}

/// The last write seen for each slot.
#[derive(Debug)]
pub struct OperationLedger {
    pub entries: Vec<(OperationKey, Operation)>,
}

pub open spec fn ledger_map(s: Seq<(OperationKey, Operation)>) -> Map<KeyView, Operation>
    decreases s.len(),
{
    if s.len() == 0 {
        Map::empty()
    } else {
        ledger_map(s.drop_last()).insert(s.last().0@, s.last().1)
    }
}

pub open spec fn ledger_keys_distinct(s: Seq<(OperationKey, Operation)>) -> bool {
    forall|i: int, j: int| 0 <= i < j < s.len() ==> s[i].0@ != s[j].0@
}

proof fn lemma_ledger_index(s: Seq<(OperationKey, Operation)>)
    requires
        ledger_keys_distinct(s),
    ensures
        forall|i: int| 0 <= i < s.len() ==> #[trigger] ledger_map(s).contains_key(s[i].0@) && ledger_map(s)[s[i].0@] == s[i].1,
        forall|k: KeyView| #[trigger] ledger_map(s).contains_key(k) ==> exists|i: int| 0 <= i < s.len() && s[i].0@ == k,
    decreases s.len(),
{
    if s.len() > 0 {
        let t = s.drop_last();
        assert(ledger_keys_distinct(t)) by {
            assert forall|i: int, j: int| 0 <= i < j < t.len() implies t[i].0@ != t[j].0@ by {
                assert(t[i] == s[i] && t[j] == s[j]);
            }
        }
        lemma_ledger_index(t);
        let m = ledger_map(s);
        assert forall|i: int| 0 <= i < s.len() implies #[trigger] m.contains_key(s[i].0@) && m[s[i].0@] == s[i].1 by {
            if i < s.len() - 1 {
                assert(t[i] == s[i]);
                assert(ledger_map(t).contains_key(t[i].0@));
                assert(s[i].0@ != s[s.len() - 1].0@);
            }
        }
        assert forall|k: KeyView| #[trigger] m.contains_key(k) implies exists|i: int| 0 <= i < s.len() && s[i].0@ == k by {
            if k != s.last().0@ {
                assert(ledger_map(t).contains_key(k));
                let i = choose|i: int| 0 <= i < t.len() && t[i].0@ == k;
                assert(s[i] == t[i]);
            } else {
                assert(s[s.len() - 1].0@ == k);
            }
        }
    }
}

proof fn lemma_ledger_update(s: Seq<(OperationKey, Operation)>, i: int, e: (OperationKey, Operation))
    requires
        ledger_keys_distinct(s),
        0 <= i < s.len(),
        s[i].0@ == e.0@,
    ensures
        ledger_keys_distinct(s.update(i, e)),
        ledger_map(s.update(i, e)) == ledger_map(s).insert(e.0@, e.1),
{
    let t = s.update(i, e);
    lemma_ledger_index(s);
    lemma_ledger_index(t);
    let a = ledger_map(t);
    let b = ledger_map(s).insert(e.0@, e.1);
    assert forall|k: KeyView| a.contains_key(k) <==> b.contains_key(k) by {
        if a.contains_key(k) {
            let j = choose|j: int| 0 <= j < t.len() && t[j].0@ == k;
            if j != i {
                assert(ledger_map(s).contains_key(s[j].0@));
            }
        }
        if b.contains_key(k) && k != e.0@ {
            let j = choose|j: int| 0 <= j < s.len() && s[j].0@ == k;
            assert(t[j].0@ == k);
            assert(a.contains_key(t[j].0@));
        }
        if k == e.0@ {
            assert(a.contains_key(t[i].0@));
        }
    }
    assert forall|k: KeyView| a.contains_key(k) implies a[k] == b[k] by {
        let j = choose|j: int| 0 <= j < t.len() && t[j].0@ == k;
        if j != i {
            assert(s[j] == t[j]);
            assert(ledger_map(s)[s[j].0@] == s[j].1);
        }
    }
    assert(a =~= b);
}

impl View for OperationLedger {
    type V = Map<KeyView, Operation>;

    open spec fn view(&self) -> Map<KeyView, Operation> {
        ledger_map(self.entries@)
    }
}

impl OperationLedger {
    pub open spec fn wf(&self) -> bool {
        ledger_keys_distinct(self.entries@)
    }

    pub fn new() -> (r: OperationLedger)
        ensures
            r.wf(),
            r@ == Map::<KeyView, Operation>::empty(),
    {
        OperationLedger { entries: Vec::new() }
    }

    /// The write currently recorded for `key`, if any.
    pub fn get(&self, key: &OperationKey) -> (r: Option<Operation>)
        requires
            self.wf(),
        ensures
            match r {
                Some(op) => self@.contains_key(key@) && self@[key@] == op,
                None => !self@.contains_key(key@),
            },
    {
        proof {
            lemma_ledger_index(self.entries@);
        }
        let mut i: usize = 0;
        while i < self.entries.len()
            invariant
                i <= self.entries@.len(),
                ledger_keys_distinct(self.entries@),
                forall|j: int| 0 <= j < i ==> self.entries@[j].0@ != key@,
            decreases self.entries@.len() - i,
        {
            if self.entries[i].0.same(key) {
                proof {
                    lemma_ledger_index(self.entries@);
                }
                assert(self@.contains_key(self.entries@[i as int].0@));
                return Some(self.entries[i].1);
            }
            i = i + 1;
        }
        None
    }

    /// Decides whether the write `op` to slot `key` supersedes the recorded
    /// one: it does when there is none or when the recorded one is older. The
    /// newer of the two is kept; the id of the other is returned for the
    /// overlay to forget, unless both came in the same message.
    pub fn observe(&mut self, key: OperationKey, op: Operation) -> (r: (AcceptDecision, Option<MessageId>))
        requires
            old(self).wf(),
        ensures
            final(self).wf(),
            (r.0, r.1, final(self)@) == observe_spec(old(self)@, key@, op),
    {
        proof {
            lemma_ledger_index(self.entries@);
        }
        let ghost kv = key@;
        let mut i: usize = 0;
        while i < self.entries.len()
            invariant
                i <= self.entries@.len(),
                self.entries@ == old(self).entries@,
                ledger_keys_distinct(self.entries@),
                kv == key@,
                forall|j: int| 0 <= j < i ==> self.entries@[j].0@ != key@,
            decreases self.entries@.len() - i,
        {
            if self.entries[i].0.same(&key) {
                proof {
                    lemma_ledger_index(self.entries@);
                }
                let existing = self.entries[i].1;
                assert(self@.contains_key(self.entries@[i as int].0@));
                if existing.lt(&op) {
                    proof {
                        lemma_ledger_update(self.entries@, i as int, (key, op));
                    }
                    self.entries.set(i, (key, op));
                    let forget = if existing.mid != op.mid {
                        Some(existing.mid)
                    } else {
                        None
                    };
                    return (AcceptDecision::Accept, forget);
                } else {
                    let forget = if existing.mid != op.mid {
                        Some(op.mid)
                    } else {
                        None
                    };
                    return (AcceptDecision::Reject, forget);
                }
            }
            i = i + 1;
        }
        let ghost s = self.entries@;
        proof {
            lemma_ledger_index(s);
            assert(!self@.contains_key(kv)) by {
                if self@.contains_key(kv) {
                    let j = choose|j: int| 0 <= j < s.len() && s[j].0@ == kv;
                }
            }
        }
        self.entries.push((key, op));
        assert(self.entries@.drop_last() =~= s);
        (AcceptDecision::Accept, None)
    }
}

/// The last-writer-wins order is total: of two different writes, one is
/// older than the other, and never both.
pub proof fn lemma_op_order_total(a: Operation, b: Operation)
    requires
        a != b,
    ensures
        op_lt(a, b) != op_lt(b, a),
{
}

/// Two writes to one slot, observed in either order from the same ledger,
/// leave the same ledger: the one that records the newer write.
pub proof fn lemma_observe_commutes(m: Map<KeyView, Operation>, k: KeyView, a: Operation, b: Operation)
    ensures
        observe_spec(observe_spec(m, k, a).2, k, b).2 == observe_spec(observe_spec(m, k, b).2, k, a).2,
        a != b ==> observe_spec(observe_spec(m, k, a).2, k, b).2[k] == (if op_lt(a, b) { b } else { a })
            || (m.contains_key(k) && observe_spec(observe_spec(m, k, a).2, k, b).2[k] == m[k]),
{
    let ab = observe_spec(observe_spec(m, k, a).2, k, b).2;
    let ba = observe_spec(observe_spec(m, k, b).2, k, a).2;
    if a != b {
        lemma_op_order_total(a, b);
    }
    if m.contains_key(k) {
        let e = m[k];
        if e != a {
            lemma_op_order_total(e, a);
        }
        if e != b {
            lemma_op_order_total(e, b);
        }
        lemma_op_lt_transitive(e, a, b);
        lemma_op_lt_transitive(e, b, a);
        lemma_op_lt_transitive(a, b, e);
        lemma_op_lt_transitive(b, a, e);
        lemma_op_lt_transitive(a, e, b);
        lemma_op_lt_transitive(b, e, a);
    }
    assert(ab =~= ba);
}

/// The last-writer-wins order is transitive.
pub proof fn lemma_op_lt_transitive(a: Operation, b: Operation, c: Operation)
    ensures
        op_lt(a, b) && op_lt(b, c) ==> op_lt(a, c),
{
}

/// A write newer than whatever its slot records takes effect.
pub proof fn lemma_newer_write_accepted(m: Map<KeyView, Operation>, k: KeyView, op: Operation)
    requires
        !m.contains_key(k) || op_lt(m[k], op),
    ensures
        observe_spec(m, k, op).0 == AcceptDecision::Accept,
        observe_spec(m, k, op).2[k] == op,
{
}

/// The ledger after observing the writes `ops` to slot `k`, in that order.
pub open spec fn observe_all(m: Map<KeyView, Operation>, k: KeyView, ops: Seq<Operation>) -> Map<KeyView, Operation>
    decreases ops.len(),
{
    if ops.len() == 0 {
        m
    } else {
        observe_spec(observe_all(m, k, ops.drop_last()), k, ops.last()).2
    }
}

/// Observing writes to a slot, from no entry, leaves the newest of them: one
/// of the writes that no other write is newer than.
pub proof fn lemma_observe_all_newest(k: KeyView, ops: Seq<Operation>)
    requires
        ops.len() > 0,
    ensures
        observe_all(Map::empty(), k, ops).contains_key(k),
        ops.contains(observe_all(Map::empty(), k, ops)[k]),
        forall|i: int| 0 <= i < ops.len() ==> !op_lt(observe_all(Map::empty(), k, ops)[k], #[trigger] ops[i]),
    decreases ops.len(),
{
    let t = ops.drop_last();
    let o = ops.last();
    if t.len() == 0 {
        assert(ops[0] == o);
    } else {
        lemma_observe_all_newest(k, t);
        let e = observe_all(Map::empty(), k, t)[k];
        let x = choose|x: int| 0 <= x < t.len() && t[x] == e;
        assert(ops[x] == e);
        if e != o {
            lemma_op_order_total(e, o);
        }
        assert forall|i: int| 0 <= i < ops.len() implies !op_lt(observe_all(Map::empty(), k, ops)[k], #[trigger] ops[i]) by {
            if i < t.len() {
                assert(ops[i] == t[i]);
                lemma_op_lt_transitive(e, o, t[i]);
            }
        }
        assert(ops[ops.len() - 1] == o);
    }
}

/// Two writes each newer than no other of the same writes are the same write.
proof fn lemma_newest_unique(ops: Seq<Operation>, a: Operation, b: Operation)
    requires
        ops.contains(a),
        ops.contains(b),
        forall|i: int| 0 <= i < ops.len() ==> !op_lt(a, #[trigger] ops[i]),
        forall|i: int| 0 <= i < ops.len() ==> !op_lt(b, #[trigger] ops[i]),
    ensures
        a == b,
{
    let i = choose|i: int| 0 <= i < ops.len() && ops[i] == a;
    let j = choose|j: int| 0 <= j < ops.len() && ops[j] == b;
    if a != b {
        lemma_op_order_total(a, b);
        assert(!op_lt(a, ops[j]));
        assert(!op_lt(b, ops[i]));
    }
}

/// Any number of writes to one slot, observed in any two orders from no
/// entry, leave the same ledger entry: the newest write.
pub proof fn lemma_observe_order_free(k: KeyView, a: Seq<Operation>, b: Seq<Operation>)
    requires
        a.len() > 0,
        a.to_multiset() == b.to_multiset(),
    ensures
        observe_all(Map::empty(), k, a)[k] == observe_all(Map::empty(), k, b)[k],
{
    a.to_multiset_ensures();
    b.to_multiset_ensures();
    assert(b.len() == a.len());
    lemma_observe_all_newest(k, a);
    lemma_observe_all_newest(k, b);
    let x = observe_all(Map::empty(), k, a)[k];
    let y = observe_all(Map::empty(), k, b)[k];
    assert(a.to_multiset().count(y) > 0);
    assert(b.to_multiset().count(x) > 0);
    assert forall|i: int| 0 <= i < b.len() implies !op_lt(x, #[trigger] b[i]) by {
        assert(b.contains(b[i]));
        assert(a.to_multiset().count(b[i]) > 0);
        let j = choose|j: int| 0 <= j < a.len() && a[j] == b[i];
        assert(!op_lt(x, a[j]));
    }
    lemma_newest_unique(b, x, y);
}

} // verus!
