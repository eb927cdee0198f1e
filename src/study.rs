use crate::error::Error;
use crate::forget::ForgetQueue;
use crate::ids::{MessageId, StudyDirection, StudyId, StudyName, StudyNameAndId, TrialId, TrialState};
use crate::operation::{key_of, observe_spec, AcceptDecision, Operation, OperationKey, OperationLedger};
use crate::strmap::{Duplicate, StrMap};
use crate::subscriber::{pushed, position_of, alive, SubscribeId, Subscribers, HEARTBEAT_WINDOW_MS};
use crate::time::{deadline_after, deadline_spec, Timestamp};
use crate::trial::{
    adjusted, blank_trial, is_nan, is_nan_spec, order_key, order_key_spec, with_state, Trial,
    TrialParamValue, TrialView,
};
use vstd::prelude::*;

verus! {

/// A mutation of a study, as broadcast on the study's overlay. Attribute
/// values are JSON texts, doubles are held as their bits.
#[derive(Debug)]
pub enum Message {
    SetStudyDirection { direction: StudyDirection, timestamp: Timestamp },
    SetStudyUserAttr { key: String, value: String, timestamp: Timestamp },
    SetStudySystemAttr { key: String, value: String, timestamp: Timestamp },
    CreateTrial { trial_id: TrialId, timestamp: Timestamp },
    SetTrialState { trial_id: TrialId, state: TrialState, timestamp: Timestamp },
    SetTrialParam { trial_id: TrialId, key: String, value: TrialParamValue, timestamp: Timestamp },
    SetTrialValue { trial_id: TrialId, value: u64, timestamp: Timestamp },
    SetTrialIntermediateValue { trial_id: TrialId, step: u32, value: u64, timestamp: Timestamp },
    SetTrialUserAttr { trial_id: TrialId, key: String, value: String, timestamp: Timestamp },
    SetTrialSystemAttr { trial_id: TrialId, key: String, value: String, timestamp: Timestamp },
}

/// The write time that a message carries.
pub open spec fn timestamp_of(m: Message) -> Timestamp {
    match m {
        Message::SetStudyDirection { timestamp, .. } => timestamp,
        Message::SetStudyUserAttr { timestamp, .. } => timestamp,
        Message::SetStudySystemAttr { timestamp, .. } => timestamp,
        Message::CreateTrial { timestamp, .. } => timestamp,
        Message::SetTrialState { timestamp, .. } => timestamp,
        Message::SetTrialParam { timestamp, .. } => timestamp,
        Message::SetTrialValue { timestamp, .. } => timestamp,
        Message::SetTrialIntermediateValue { timestamp, .. } => timestamp,
        Message::SetTrialUserAttr { timestamp, .. } => timestamp,
        Message::SetTrialSystemAttr { timestamp, .. } => timestamp,
    }
}

impl Message {
    pub fn timestamp(&self) -> (r: Timestamp)
        ensures
            r == timestamp_of(*self),
    {
        match self {
            Message::SetStudyDirection { timestamp, .. } => *timestamp,
            Message::SetStudyUserAttr { timestamp, .. } => *timestamp,
            Message::SetStudySystemAttr { timestamp, .. } => *timestamp,
            Message::CreateTrial { timestamp, .. } => *timestamp,
            Message::SetTrialState { timestamp, .. } => *timestamp,
            Message::SetTrialParam { timestamp, .. } => *timestamp,
            Message::SetTrialValue { timestamp, .. } => *timestamp,
            Message::SetTrialIntermediateValue { timestamp, .. } => *timestamp,
            Message::SetTrialUserAttr { timestamp, .. } => *timestamp,
            Message::SetTrialSystemAttr { timestamp, .. } => *timestamp,
        }
    }
}

impl Duplicate for Message {
    fn duplicate(&self) -> (r: Message) {
        match self {
            Message::SetStudyDirection { direction, timestamp } => Message::SetStudyDirection {
                direction: *direction,
                timestamp: *timestamp,
            },
            Message::SetStudyUserAttr { key, value, timestamp } => Message::SetStudyUserAttr {
                key: key.clone(),
                value: value.clone(),
                timestamp: *timestamp,
            },
            Message::SetStudySystemAttr { key, value, timestamp } => Message::SetStudySystemAttr {
                key: key.clone(),
                value: value.clone(),
                timestamp: *timestamp,
            },
            Message::CreateTrial { trial_id, timestamp } => Message::CreateTrial {
                trial_id: *trial_id,
                timestamp: *timestamp,
            },
            Message::SetTrialState { trial_id, state, timestamp } => Message::SetTrialState {
                trial_id: *trial_id,
                state: *state,
                timestamp: *timestamp,
            },
            Message::SetTrialParam { trial_id, key, value, timestamp } => Message::SetTrialParam {
                trial_id: *trial_id,
                key: key.clone(),
                value: value.duplicate(),
                timestamp: *timestamp,
            },
            Message::SetTrialValue { trial_id, value, timestamp } => Message::SetTrialValue {
                trial_id: *trial_id,
                value: *value,
                timestamp: *timestamp,
            },
            Message::SetTrialIntermediateValue { trial_id, step, value, timestamp } => {
                Message::SetTrialIntermediateValue {
                    trial_id: *trial_id,
                    step: *step,
                    value: *value,
                    timestamp: *timestamp,
                }
            },
            Message::SetTrialUserAttr { trial_id, key, value, timestamp } => Message::SetTrialUserAttr {
                trial_id: *trial_id,
                key: key.clone(),
                value: value.clone(),
                timestamp: *timestamp,
            },
            Message::SetTrialSystemAttr { trial_id, key, value, timestamp } => {
                Message::SetTrialSystemAttr {
                    trial_id: *trial_id,
                    key: key.clone(),
                    value: value.clone(),
                    timestamp: *timestamp,
                }
            },
        }
    }
}


/// How long, in milliseconds, a study node lives without a command.
pub const NODE_TTL_MS: u64 = 3_600_000;

/// The trials of a list, by id.
pub open spec fn trials_map(s: Seq<Trial>) -> Map<TrialId, TrialView>
    decreases s.len(),
{
    if s.len() == 0 {
        Map::empty()
    } else {
        trials_map(s.drop_last()).insert(s.last().trial_id, s.last()@)
    }
}

pub open spec fn trial_ids_distinct(s: Seq<Trial>) -> bool {
    forall|i: int, j: int| 0 <= i < j < s.len() ==> s[i].trial_id != s[j].trial_id
}

proof fn lemma_trials_index(s: Seq<Trial>)
    requires
        trial_ids_distinct(s),
    ensures
        forall|i: int| 0 <= i < s.len() ==> #[trigger] trials_map(s).contains_key(s[i].trial_id) && trials_map(s)[s[i].trial_id] == s[i]@,
        forall|k: TrialId| #[trigger] trials_map(s).contains_key(k) ==> exists|i: int| 0 <= i < s.len() && s[i].trial_id == k,
    decreases s.len(),
{
    if s.len() > 0 {
        let t = s.drop_last();
        assert(trial_ids_distinct(t)) by {
            assert forall|i: int, j: int| 0 <= i < j < t.len() implies t[i].trial_id != t[j].trial_id by {
                assert(t[i] == s[i] && t[j] == s[j]);
            }
        }
        lemma_trials_index(t);
        let m = trials_map(s);
        assert forall|i: int| 0 <= i < s.len() implies #[trigger] m.contains_key(s[i].trial_id) && m[s[i].trial_id] == s[i]@ by {
            if i < s.len() - 1 {
                assert(t[i] == s[i]);
                assert(trials_map(t).contains_key(t[i].trial_id));
                assert(s[i].trial_id != s[s.len() - 1].trial_id);
            }
        }
        assert forall|k: TrialId| #[trigger] m.contains_key(k) implies exists|i: int| 0 <= i < s.len() && s[i].trial_id == k by {
            if k != s.last().trial_id {
                assert(trials_map(t).contains_key(k));
                let i = choose|i: int| 0 <= i < t.len() && t[i].trial_id == k;
                assert(s[i] == t[i]);
            } else {
                assert(s[s.len() - 1].trial_id == k);
            }
        }
    }
}

proof fn lemma_trials_update(s: Seq<Trial>, i: int, e: Trial)
    requires
        trial_ids_distinct(s),
        0 <= i < s.len(),
        s[i].trial_id == e.trial_id,
    ensures
        trial_ids_distinct(s.update(i, e)),
        trials_map(s.update(i, e)) == trials_map(s).insert(e.trial_id, e@),
{
    let t = s.update(i, e);
    lemma_trials_index(s);
    assert(trial_ids_distinct(t)) by {
        assert forall|a: int, b: int| 0 <= a < b < t.len() implies t[a].trial_id != t[b].trial_id by {
            assert(t[a].trial_id == s[a].trial_id && t[b].trial_id == s[b].trial_id);
        }
    }
    lemma_trials_index(t);
    let a = trials_map(t);
    let b = trials_map(s).insert(e.trial_id, e@);
    assert forall|k: TrialId| a.contains_key(k) <==> b.contains_key(k) by {
        if a.contains_key(k) {
            let j = choose|j: int| 0 <= j < t.len() && t[j].trial_id == k;
            if j != i {
                assert(trials_map(s).contains_key(s[j].trial_id));
            }
        }
        if b.contains_key(k) && k != e.trial_id {
            let j = choose|j: int| 0 <= j < s.len() && s[j].trial_id == k;
            assert(t[j].trial_id == k);
            assert(a.contains_key(t[j].trial_id));
        }
        if k == e.trial_id {
            assert(a.contains_key(t[i].trial_id));
        }
    }
    assert forall|k: TrialId| a.contains_key(k) implies a[k] == b[k] by {
        let j = choose|j: int| 0 <= j < t.len() && t[j].trial_id == k;
        if j != i {
            assert(s[j] == t[j]);
            assert(trials_map(s)[s[j].trial_id] == s[j]@);
        }
    }
    assert(a =~= b);
}

/// The replicated state of a study, as a value.
pub ghost struct StudyView {
    pub direction: StudyDirection,
    pub user_attrs: Map<Seq<char>, String>,
    pub system_attrs: Map<Seq<char>, String>,
    pub trials: Map<TrialId, TrialView>,
}

/// The trial `id` as known, or a blank one.
pub open spec fn trial_or_blank(trials: Map<TrialId, TrialView>, id: TrialId) -> TrialView {
    if trials.contains_key(id) {
        trials[id]
    } else {
        blank_trial(id)
    }
}

/// The state after a mutation takes effect.
pub open spec fn study_after(s: StudyView, m: Message) -> StudyView {
    match m {
        Message::SetStudyDirection { direction, .. } => StudyView { direction, ..s },
        Message::SetStudyUserAttr { key, value, .. } => StudyView { user_attrs: s.user_attrs.insert(key@, value), ..s },
        Message::SetStudySystemAttr { key, value, .. } => StudyView {
            system_attrs: s.system_attrs.insert(key@, value),
            ..s
        },
        Message::CreateTrial { trial_id, timestamp } => {
            let t = trial_or_blank(s.trials, trial_id);
            StudyView { trials: s.trials.insert(trial_id, TrialView { datetime_start: Some(timestamp), ..t }), ..s }
        },
        Message::SetTrialState { trial_id, state, timestamp } => {
            let t = trial_or_blank(s.trials, trial_id);
            StudyView { trials: s.trials.insert(trial_id, with_state(t, state, timestamp)), ..s }
        },
        Message::SetTrialParam { trial_id, key, value, .. } => {
            let t = trial_or_blank(s.trials, trial_id);
            StudyView { trials: s.trials.insert(trial_id, TrialView { params: t.params.insert(key@, value), ..t }), ..s }
        },
        Message::SetTrialValue { trial_id, value, .. } => {
            let t = trial_or_blank(s.trials, trial_id);
            StudyView { trials: s.trials.insert(trial_id, TrialView { value: Some(value), ..t }), ..s }
        },
        Message::SetTrialIntermediateValue { trial_id, step, value, .. } => {
            let t = trial_or_blank(s.trials, trial_id);
            StudyView {
                trials: s.trials.insert(
                    trial_id,
                    TrialView { intermediate_values: t.intermediate_values.insert(step, value), ..t },
                ),
                ..s
            }
        },
        Message::SetTrialUserAttr { trial_id, key, value, .. } => {
            let t = trial_or_blank(s.trials, trial_id);
            StudyView {
                trials: s.trials.insert(trial_id, TrialView { user_attrs: t.user_attrs.insert(key@, value), ..t }),
                ..s
            }
        },
        Message::SetTrialSystemAttr { trial_id, key, value, .. } => {
            let t = trial_or_blank(s.trials, trial_id);
            StudyView {
                trials: s.trials.insert(trial_id, TrialView { system_attrs: t.system_attrs.insert(key@, value), ..t }),
                ..s
            }
        },
    }
}

/// A trial that can be the best one: complete, with a value that is a number.
pub open spec fn eligible(t: TrialView) -> bool {
    t.state == TrialState::Complete && t.value is Some && !is_nan_spec(t.value->0)
}

/// Whether eligible trial `a` is strictly better than `b`: smaller under
/// `Minimize` and `NotSet`, larger under `Maximize`.
pub open spec fn beats(a: TrialView, b: TrialView, dir: StudyDirection) -> bool {
    if dir == StudyDirection::Maximize {
        order_key_spec(a.value->0) > order_key_spec(b.value->0)
    } else {
        order_key_spec(a.value->0) < order_key_spec(b.value->0)
    }
}

/// The position of the best trial: the first eligible one that no later one
/// beats.
pub open spec fn best_index(s: Seq<Trial>, dir: StudyDirection) -> Option<int>
    decreases s.len(),
{
    if s.len() == 0 {
        None
    } else {
        let p = best_index(s.drop_last(), dir);
        let l = s.len() - 1;
        if eligible(s[l]@) && (p is None || beats(s[l]@, s[p->0]@, dir)) {
            Some(l)
        } else {
            p
        }
    }
}

/// The best trial is one of the list, and an eligible one.
pub proof fn lemma_best_index_in_range(s: Seq<Trial>, dir: StudyDirection)
    ensures
        match best_index(s, dir) {
            None => true,
            Some(i) => 0 <= i < s.len() && eligible(s[i]@),
        },
    decreases s.len(),
{
    if s.len() > 0 {
        lemma_best_index_in_range(s.drop_last(), dir);
        match best_index(s.drop_last(), dir) {
            Some(j) => {
                assert(s[j] == s.drop_last()[j]);
            },
            None => {},
        }
    }
}

/// The best trial is the first optimal one: none is eligible exactly when
/// there is no best; no eligible trial beats the best; and the best beats every
/// eligible trial before it.
pub proof fn lemma_best_index_optimal(s: Seq<Trial>, dir: StudyDirection)
    ensures
        best_index(s, dir) is None <==> forall|j: int| 0 <= j < s.len() ==> !eligible(#[trigger] s[j]@),
        best_index(s, dir) is Some ==> forall|j: int| 0 <= j < s.len() && eligible(#[trigger] s[j]@) ==> !beats(s[j]@, s[best_index(s, dir)->0]@, dir),
        best_index(s, dir) is Some ==> forall|j: int| 0 <= j < best_index(s, dir)->0 && eligible(#[trigger] s[j]@) ==> beats(s[best_index(s, dir)->0]@, s[j]@, dir),
    decreases s.len(),
{
    if s.len() > 0 {
        let t = s.drop_last();
        lemma_best_index_optimal(t, dir);
        lemma_best_index_in_range(t, dir);
        assert forall|j: int| 0 <= j < t.len() implies t[j] == s[j] by {}
        let l = s.len() - 1;
        match best_index(t, dir) {
            None => {
                if eligible(s[l]@) {
                    assert(best_index(s, dir) == Some(l));
                } else {
                    assert(best_index(s, dir) is None);
                    assert forall|j: int| 0 <= j < s.len() implies !eligible(#[trigger] s[j]@) by {
                        if j < l {
                            assert(t[j] == s[j]);
                        }
                    }
                }
            },
            Some(p) => {
                assert(t[p] == s[p]);
                assert(eligible(s[p]@));
                let b = best_index(s, dir)->0;
                assert forall|j: int| 0 <= j < s.len() && eligible(#[trigger] s[j]@) implies !beats(s[j]@, s[b]@, dir) by {
                    if j < l {
                        assert(t[j] == s[j]);
                    }
                }
                assert forall|j: int| 0 <= j < b && eligible(#[trigger] s[j]@) implies beats(s[b]@, s[j]@, dir) by {
                    if j < l {
                        assert(t[j] == s[j]);
                    }
                }
            },
        }
    }
}

/// The trials that readers see, in order.
pub open spec fn visible_trials(s: Seq<Trial>) -> Seq<TrialView>
    decreases s.len(),
{
    if s.len() == 0 {
        Seq::empty()
    } else {
        let p = visible_trials(s.drop_last());
        match adjusted(s.last()@) {
            Some(v) => p.push(v),
            None => p,
        }
    }
}

/// A summary of a study, as handed to readers.
#[derive(Debug)]
pub struct StudySummary {
    pub study_id: StudyId,
    pub study_name: StudyName,
    pub direction: StudyDirection,
    pub user_attrs: StrMap<String>,
    pub system_attrs: StrMap<String>,
    pub n_trials: u32,
    pub best_trial: Option<Trial>,
    pub datetime_start: Timestamp,
}

/// The state of one study held by one peer: the replicated study itself, the
/// ledger of last writes, the subscribers and the idle deadline.
#[derive(Debug)]
pub struct StudyNode {
    pub study: StudyNameAndId,
    pub direction: StudyDirection,
    pub user_attrs: StrMap<String>,
    pub system_attrs: StrMap<String>,
    pub trials: Vec<Trial>,
    pub datetime_start: Timestamp,
    pub operations: OperationLedger,
    pub expiry_time: u64,
    pub subscribers: Subscribers,
    pub forget_queue: ForgetQueue,
}

impl StudyNode {
    pub open spec fn wf(&self) -> bool {
        &&& self.user_attrs.wf()
        &&& self.system_attrs.wf()
        &&& trial_ids_distinct(self.trials@)
        &&& forall|i: int| 0 <= i < self.trials@.len() ==> (#[trigger] self.trials@[i]).wf()
        &&& self.operations.wf()
        &&& self.subscribers.wf()
    }

    /// The replicated state as a value.
    pub open spec fn state(&self) -> StudyView {
        StudyView {
            direction: self.direction,
            user_attrs: self.user_attrs@,
            system_attrs: self.system_attrs@,
            trials: trials_map(self.trials@),
        }
    }

    /// A node for `study`, started at `started` (wall clock) and `now`
    /// (monotonic milliseconds), with nothing seen yet.
    pub fn new(study: StudyNameAndId, now: u64, started: Timestamp) -> (r: StudyNode)
        ensures
            r.wf(),
            r.study == study,
            r.state() == (StudyView {
                direction: StudyDirection::NotSet,
                user_attrs: Map::empty(),
                system_attrs: Map::empty(),
                trials: Map::empty(),
            }),
            r.datetime_start == started,
            r.operations@ == Map::<crate::operation::KeyView, Operation>::empty(),
            r.expiry_time == deadline_spec(now, NODE_TTL_MS),
            r.subscribers.entries@.len() == 0,
            r.subscribers.next_id.0 == 0,
            r.forget_queue.entries@.len() == 0,
    {
        let r = StudyNode {
            study,
            direction: StudyDirection::NotSet,
            user_attrs: StrMap::new(),
            system_attrs: StrMap::new(),
            trials: Vec::new(),
            datetime_start: started,
            operations: OperationLedger::new(),
            expiry_time: deadline_after(now, NODE_TTL_MS),
            subscribers: Subscribers::new(),
            forget_queue: ForgetQueue::new(),
        };
        assert(r.state().trials =~= Map::<TrialId, TrialView>::empty());
        r
    }

    /// Records a command at `now`: the node lives a full TTL more.
    pub fn touch(&mut self, now: u64)
        ensures
            *final(self) == (StudyNode { expiry_time: deadline_spec(now, NODE_TTL_MS), ..*old(self) }),
    {
        self.expiry_time = deadline_after(now, NODE_TTL_MS);
    }

    /// Whether the node has gone a full TTL without a command.
    pub fn has_expired(&self, now: u64) -> (r: bool)
        ensures
            r == (self.expiry_time < now),
    {
        self.expiry_time < now
    }

    /// The position of trial `trial_id`, which is added blank if unknown.
    fn trial_index(&mut self, trial_id: TrialId) -> (r: usize)
        requires
            old(self).wf(),
        ensures
            final(self).wf(),
            r < final(self).trials@.len(),
            final(self).trials@[r as int].trial_id == trial_id,
            final(self).trials@[r as int]@ == trial_or_blank(old(self).state().trials, trial_id),
            final(self).state() == (StudyView {
                trials: old(self).state().trials.insert(trial_id, trial_or_blank(old(self).state().trials, trial_id)),
                ..old(self).state()
            }),
            *final(self) == (StudyNode { trials: final(self).trials, ..*old(self) }),
    {
        proof {
            lemma_trials_index(self.trials@);
        }
        let mut i: usize = 0;
        while i < self.trials.len()
            invariant
                i <= self.trials@.len(),
                *self == *old(self),
                old(self).wf(),
                self.trials@ == old(self).trials@,
                trial_ids_distinct(self.trials@),
                forall|j: int| 0 <= j < i ==> self.trials@[j].trial_id != trial_id,
            decreases self.trials@.len() - i,
        {
            if self.trials[i].trial_id == trial_id {
                proof {
                    lemma_trials_index(self.trials@);
                }
                assert(trials_map(self.trials@).contains_key(self.trials@[i as int].trial_id));
                assert(self.state().trials.insert(trial_id, self.trials@[i as int]@) =~= self.state().trials);
                return i;
            }
            i = i + 1;
        }
        let ghost before = self.trials@;
        assert(!trials_map(before).contains_key(trial_id)) by {
            if trials_map(before).contains_key(trial_id) {
                let j = choose|j: int| 0 <= j < before.len() && before[j].trial_id == trial_id;
            }
        }
        self.trials.push(Trial::new(trial_id));
        assert(self.trials@.drop_last() =~= before);
        assert forall|a: int, b: int| 0 <= a < b < self.trials@.len() implies self.trials@[a].trial_id != self.trials@[b].trial_id by {
            if b < before.len() {
                assert(self.trials@[a] == before[a] && self.trials@[b] == before[b]);
            } else {
                assert(self.trials@[a] == before[a]);
            }
        }
        assert forall|j: int| 0 <= j < self.trials@.len() implies (#[trigger] self.trials@[j]).wf() by {
            if j < before.len() {
                assert(self.trials@[j] == before[j]);
            }
        }
        i
    }

    /// Makes mutation `m` take effect on the replicated state.
    fn apply(&mut self, m: Message)
        requires
            old(self).wf(),
        ensures
            final(self).wf(),
            final(self).state() == study_after(old(self).state(), m),
            *final(self) == (StudyNode {
                direction: final(self).direction,
                user_attrs: final(self).user_attrs,
                system_attrs: final(self).system_attrs,
                trials: final(self).trials,
                ..*old(self)
            }),
    {
        let ghost s0 = self.state();
        match m {
            Message::SetStudyDirection { direction, .. } => {
                self.direction = direction;
            },
            Message::SetStudyUserAttr { key, value, .. } => {
                self.user_attrs.insert(key, value);
            },
            Message::SetStudySystemAttr { key, value, .. } => {
                self.system_attrs.insert(key, value);
            },
            _ => {
                self.apply_to_trial(m);
                return;
            },
        }
        assert(self.state() =~= study_after(s0, m));
    }

    /// Makes a mutation of a trial take effect.
    #[verifier::rlimit(30)]
    fn apply_to_trial(&mut self, m: Message)
        requires
            old(self).wf(),
            !(m is SetStudyDirection || m is SetStudyUserAttr || m is SetStudySystemAttr),
        ensures
            final(self).wf(),
            final(self).state() == study_after(old(self).state(), m),
            *final(self) == (StudyNode { trials: final(self).trials, ..*old(self) }),
    {
        let ghost s0 = self.state();
        let trial_id = trial_of(&m);
        let i = self.trial_index(trial_id);
        let ghost prev = self.trials@;
        let ghost t0 = trial_or_blank(s0.trials, trial_id);
        let mut t = self.take_trial(i);
        assert(t@ == t0);
        match m {
            Message::CreateTrial { timestamp, .. } => {
                t.datetime_start = Some(timestamp);
                assert(study_after(s0, m).trials =~= s0.trials.insert(trial_id, t@));
            },
            Message::SetTrialState { state, timestamp, .. } => {
                t.set_state(state, timestamp);
                assert(study_after(s0, m).trials =~= s0.trials.insert(trial_id, t@));
            },
            Message::SetTrialParam { key, value, .. } => {
                t.params.insert(key, value);
                assert(study_after(s0, m).trials =~= s0.trials.insert(trial_id, t@));
            },
            Message::SetTrialValue { value, .. } => {
                t.value = Some(value);
                assert(study_after(s0, m).trials =~= s0.trials.insert(trial_id, t@));
            },
            Message::SetTrialIntermediateValue { step, value, .. } => {
                t.intermediate_values.insert(step, value);
                assert(study_after(s0, m).trials =~= s0.trials.insert(trial_id, t@));
            },
            Message::SetTrialUserAttr { key, value, .. } => {
                t.user_attrs.insert(key, value);
                assert(study_after(s0, m).trials =~= s0.trials.insert(trial_id, t@));
            },
            Message::SetTrialSystemAttr { key, value, .. } => {
                t.system_attrs.insert(key, value);
                assert(study_after(s0, m).trials =~= s0.trials.insert(trial_id, t@));
            },
            _ => {},
        }
        let ghost t1 = t@;
        assert(study_after(s0, m).trials == s0.trials.insert(trial_id, t1));
        self.restore_trial(i, t, Ghost(prev));
        assert(t1.trial_id == trial_id);
        assert(trials_map(prev) == s0.trials.insert(trial_id, t0));
        assert(self.state().trials =~= s0.trials.insert(trial_id, t0).insert(trial_id, t1));
        assert(self.state().trials == study_after(s0, m).trials);
        assert(self.state().direction == study_after(s0, m).direction);
        assert(self.state().user_attrs == study_after(s0, m).user_attrs);
        assert(self.state().system_attrs == study_after(s0, m).system_attrs);
        assert(self.state() =~= study_after(s0, m));
    }

    /// Asks the ledger whether the write that message `m` (delivered as
    /// `mid`) makes supersedes the recorded one for its slot.
    fn check_message(&mut self, mid: MessageId, m: &Message) -> (r: (bool, Option<MessageId>))
        requires
            old(self).wf(),
        ensures
            final(self).wf(),
            ({
                let (d, f, l) = observe_spec(old(self).operations@, key_of(*m), Operation { timestamp: crate::study::timestamp_of(*m), mid });
                r.0 == (d == AcceptDecision::Accept) && r.1 == f && final(self).operations@ == l
            }),
            *final(self) == (StudyNode { operations: final(self).operations, ..*old(self) }),
    {
        let key = OperationKey::from_message(m);
        let op = Operation::new(mid, m);
        let (d, forget) = self.operations.observe(key, op);
        (d == AcceptDecision::Accept, forget)
    }

    /// Handles a mutation delivered by the overlay at `now` as `mid`: it is
    /// scheduled to be forgotten; if it supersedes the recorded write of its
    /// slot, every subscriber gets it and it takes effect. Returns whether it
    /// took effect and the id of the message that the overlay may forget now.
    pub fn handle_message(&mut self, mid: MessageId, m: Message, now: u64) -> (r: (bool, Option<MessageId>))
        requires
            old(self).wf(),
        ensures
            final(self).wf(),
            ({
                let (d, f, l) = observe_spec(old(self).operations@, key_of(m), Operation { timestamp: timestamp_of(m), mid });
                &&& r.0 == (d == AcceptDecision::Accept)
                &&& r.1 == f
                &&& final(self).operations@ == l
            }),
            final(self).forget_queue.entries@ == old(self).forget_queue.entries@.push((deadline_spec(now, crate::forget::FORGET_DELAY_MS), mid)),
            r.0 ==> final(self).state() == study_after(old(self).state(), m),
            r.0 ==> pushed(old(self).subscribers.entries@, final(self).subscribers.entries@, m),
            !r.0 ==> final(self).state() == old(self).state(),
            !r.0 ==> final(self).subscribers == old(self).subscribers,
            final(self).subscribers.next_id == old(self).subscribers.next_id,
            final(self).study == old(self).study,
            final(self).expiry_time == old(self).expiry_time,
            final(self).datetime_start == old(self).datetime_start,
    {
        self.forget_queue.push(now, mid);
        let (accepted, forget) = self.check_message(mid, &m);
        if !accepted {
            return (false, forget);
        }
        self.subscribers.push(&m);
        self.apply(m);
        (true, forget)
    }

    /// The summary of the study: its identity, direction, attributes, number of
    /// trials, start time and best trial (see `best_index`).
    pub fn get_summary(&self) -> (r: StudySummary)
        requires
            self.wf(),
        ensures
            r.study_id == self.study.study_id,
            r.study_name@ == self.study.study_name@,
            r.direction == self.direction,
            r.user_attrs@ == self.user_attrs@,
            r.user_attrs.wf(),
            r.system_attrs@ == self.system_attrs@,
            r.system_attrs.wf(),
            r.n_trials == (if self.trials@.len() > u32::MAX { u32::MAX as int } else { self.trials@.len() as int }),
            r.datetime_start == self.datetime_start,
            match best_index(self.trials@, self.direction) {
                None => r.best_trial is None,
                Some(i) => r.best_trial is Some && r.best_trial->0@ == self.trials@[i]@,
            },
    {
        let n = self.trials.len();
        let n_trials: u32 = if n > u32::MAX as usize {
            u32::MAX
        } else {
            n as u32
        };
        proof {
            lemma_best_index_in_range(self.trials@, self.direction);
        }
        let best_trial = match self.best_trial_index() {
            Some(i) => Some(self.trials[i].duplicate()),
            None => None,
        };
        StudySummary {
            study_id: self.study.study_id,
            study_name: self.study.study_name.duplicate(),
            direction: self.direction,
            user_attrs: self.user_attrs.duplicate(),
            system_attrs: self.system_attrs.duplicate(),
            n_trials,
            best_trial,
            datetime_start: self.datetime_start,
        }
    }

    /// The position of the best trial (see `best_index`).
    pub fn best_trial_index(&self) -> (r: Option<usize>)
        ensures
            match best_index(self.trials@, self.direction) {
                None => r is None,
                Some(i) => r == Some(i as usize),
            },
    {
        let dir = self.direction;
        let mut best: Option<usize> = None;
        let mut i: usize = 0;
        while i < self.trials.len()
            invariant
                i <= self.trials@.len(),
                dir == self.direction,
                match best_index(self.trials@.subrange(0, i as int), dir) {
                    None => best is None,
                    Some(j) => best == Some(j as usize) && 0 <= j < i && eligible(self.trials@[j]@),
                },
            decreases self.trials@.len() - i,
        {
            let ghost pre = self.trials@.subrange(0, i as int);
            let ghost cur = self.trials@.subrange(0, i + 1);
            assert(cur.drop_last() =~= pre);
            assert(cur[i as int] == self.trials@[i as int]);
            proof {
                lemma_best_index_in_range(pre, dir);
                lemma_best_index_in_range(cur, dir);
                match best_index(pre, dir) {
                    Some(j) => {
                        assert(cur[j] == pre[j]);
                        assert(pre[j] == self.trials@[j]);
                    },
                    None => {},
                }
            }
            let t = &self.trials[i];
            let ok = t.state == TrialState::Complete && match t.value {
                Some(v) => !is_nan(v),
                None => false,
            };
            if ok {
                let v = order_key(t.value.unwrap());
                let better = match best {
                    None => true,
                    Some(b) => {
                        assert(cur[b as int] == self.trials@[b as int]);
                        let w = order_key(self.trials[b].value.unwrap());
                        if dir == StudyDirection::Maximize {
                            v > w
                        } else {
                            v < w
                        }
                    },
                };
                if better {
                    best = Some(i);
                }
            } else {
                proof {
                    match best_index(pre, dir) {
                        Some(j) => {
                            assert(cur[j] == pre[j]);
                        },
                        None => {},
                    }
                }
            }
            i = i + 1;
        }
        assert(self.trials@.subrange(0, i as int) =~= self.trials@);
        best
    }

    /// The trial `trial_id` as readers see it; `NotFound` when it is unknown or
    /// its creation has not been seen.
    pub fn get_trial(&self, trial_id: TrialId) -> (r: Result<Trial, Error>)
        requires
            self.wf(),
        ensures
            match r {
                Ok(t) => self.state().trials.contains_key(trial_id) && adjusted(self.state().trials[trial_id]) == Some(t@),
                Err(e) => e.kind == crate::error::ErrorKind::NotFound && (!self.state().trials.contains_key(trial_id)
                    || adjusted(self.state().trials[trial_id]) is None),
            },
    {
        proof {
            lemma_trials_index(self.trials@);
        }
        let mut i: usize = 0;
        while i < self.trials.len()
            invariant
                i <= self.trials@.len(),
                trial_ids_distinct(self.trials@),
                forall|j: int| 0 <= j < i ==> self.trials@[j].trial_id != trial_id,
            decreases self.trials@.len() - i,
        {
            if self.trials[i].trial_id == trial_id {
                proof {
                    lemma_trials_index(self.trials@);
                }
                assert(trials_map(self.trials@).contains_key(self.trials@[i as int].trial_id));
                return match self.trials[i].adjust() {
                    Some(t) => Ok(t),
                    None => Err(Error::not_found()),
                };
            }
            i = i + 1;
        }
        proof {
            lemma_trials_index(self.trials@);
            if trials_map(self.trials@).contains_key(trial_id) {
                let j = choose|j: int| 0 <= j < self.trials@.len() && self.trials@[j].trial_id == trial_id;
            }
        }
        Err(Error::not_found())
    }

    /// Every trial as readers see it, in order, leaving out those whose
    /// creation has not been seen.
    pub fn get_trials(&self) -> (r: Vec<Trial>)
        requires
            self.wf(),
        ensures
            r@.len() == visible_trials(self.trials@).len(),
            forall|i: int| 0 <= i < r@.len() ==> (#[trigger] r@[i])@ == visible_trials(self.trials@)[i],
            forall|i: int| 0 <= i < r@.len() ==> (#[trigger] r@[i]).datetime_start is Some,
    {
        let mut out: Vec<Trial> = Vec::new();
        let mut i: usize = 0;
        while i < self.trials.len()
            invariant
                i <= self.trials@.len(),
                out@.len() == visible_trials(self.trials@.subrange(0, i as int)).len(),
                forall|j: int| 0 <= j < out@.len() ==> (#[trigger] out@[j])@ == visible_trials(self.trials@.subrange(0, i as int))[j],
                forall|j: int| 0 <= j < out@.len() ==> (#[trigger] out@[j]).datetime_start is Some,
            decreases self.trials@.len() - i,
        {
            let ghost pre = self.trials@.subrange(0, i as int);
            let ghost cur = self.trials@.subrange(0, i + 1);
            assert(cur.drop_last() =~= pre);
            assert(cur.last() == self.trials@[i as int]);
            match self.trials[i].adjust() {
                Some(t) => {
                    out.push(t);
                },
                None => {},
            }
            i = i + 1;
        }
        assert(self.trials@.subrange(0, i as int) =~= self.trials@);
        out
    }

    /// Adds a subscriber at `now` whose buffer starts with `history` (the
    /// messages the overlay still retains); `Other` once every id is used.
    pub fn subscribe(&mut self, now: u64, history: Vec<Message>) -> (r: Result<SubscribeId, Error>)
        requires
            old(self).wf(),
        ensures
            final(self).wf(),
            final(self).state() == old(self).state(),
            old(self).subscribers.next_id.0 == u32::MAX ==> r is Err && r->Err_0.kind == crate::error::ErrorKind::Other,
            old(self).subscribers.next_id.0 < u32::MAX ==> {
                &&& r == Ok::<SubscribeId, Error>(old(self).subscribers.next_id)
                &&& final(self).subscribers.next_id.0 == old(self).subscribers.next_id.0 + 1
                &&& final(self).subscribers.entries@.drop_last() == old(self).subscribers.entries@
                &&& final(self).subscribers.entries@.last().0 == old(self).subscribers.next_id
                &&& final(self).subscribers.entries@.last().1.messages@ == history@
                &&& final(self).subscribers.entries@.last().1.expiry_time == deadline_spec(now, HEARTBEAT_WINDOW_MS)
            },
            *final(self) == (StudyNode { subscribers: final(self).subscribers, ..*old(self) }),
    {
        match self.subscribers.subscribe(now, history) {
            Some(id) => Ok(id),
            None => Err(Error::other()),
        }
    }

    /// Hands subscriber `id` its buffered events and extends its life from
    /// `now`; `NotFound` when there is no such subscriber.
    pub fn poll_events(&mut self, id: SubscribeId, now: u64) -> (r: Result<Vec<Message>, Error>)
        requires
            old(self).wf(),
        ensures
            final(self).wf(),
            final(self).state() == old(self).state(),
            final(self).subscribers.next_id == old(self).subscribers.next_id,
            match position_of(old(self).subscribers.entries@, id) {
                None => {
                    &&& r is Err && r->Err_0.kind == crate::error::ErrorKind::NotFound
                    &&& final(self).subscribers.entries@ == old(self).subscribers.entries@
                },
                Some(i) => {
                    &&& r is Ok
                    &&& r->Ok_0@ == old(self).subscribers.entries@[i].1.messages@
                    &&& final(self).subscribers.entries@.len() == old(self).subscribers.entries@.len()
                    &&& final(self).subscribers.entries@[i].0 == id
                    &&& final(self).subscribers.entries@[i].1.messages@.len() == 0
                    &&& final(self).subscribers.entries@[i].1.expiry_time == deadline_spec(now, HEARTBEAT_WINDOW_MS)
                    &&& forall|j: int| 0 <= j < old(self).subscribers.entries@.len() && j != i ==>
                        #[trigger] final(self).subscribers.entries@[j] == old(self).subscribers.entries@[j]
                },
            },
            *final(self) == (StudyNode { subscribers: final(self).subscribers, ..*old(self) }),
    {
        match self.subscribers.poll(id, now) {
            Some(ms) => Ok(ms),
            None => Err(Error::not_found()),
        }
    }

    /// Drops the subscribers that have expired by `now`.
    pub fn sweep_subscribers(&mut self, now: u64)
        requires
            old(self).wf(),
        ensures
            final(self).wf(),
            final(self).subscribers.entries@ == alive(old(self).subscribers.entries@, now),
            *final(self) == (StudyNode { subscribers: final(self).subscribers, ..*old(self) }),
    {
        self.subscribers.sweep(now);
    }

    /// The messages whose retention ends before `now`, for the overlay to forget.
    pub fn due_forgets(&mut self, now: u64) -> (r: Vec<MessageId>)
        requires
            old(self).wf(),
        ensures
            final(self).wf(),
            r@.len() <= old(self).forget_queue.entries@.len(),
            final(self).forget_queue.entries@ == old(self).forget_queue.entries@.subrange(r@.len() as int, old(self).forget_queue.entries@.len() as int),
            forall|i: int| 0 <= i < r@.len() ==> (#[trigger] r@[i]) == old(self).forget_queue.entries@[i].1,
            forall|i: int| 0 <= i < r@.len() ==> (#[trigger] old(self).forget_queue.entries@[i]).0 < now,
            r@.len() < old(self).forget_queue.entries@.len() ==> !(old(self).forget_queue.entries@[r@.len() as int].0 < now),
            *final(self) == (StudyNode { forget_queue: final(self).forget_queue, ..*old(self) }),
    {
        let ghost q0 = self.forget_queue.entries@;
        let r = self.forget_queue.pop_due(now);
        assert(q0 == old(self).forget_queue.entries@);
        r
    }

    /// Takes the trial at position `i` out of the list.
    fn take_trial(&mut self, i: usize) -> (r: Trial)
        requires
            i < old(self).trials@.len(),
        ensures
            r == old(self).trials@[i as int],
            final(self).trials@ == old(self).trials@.remove(i as int),
            *final(self) == (StudyNode { trials: final(self).trials, ..*old(self) }),
    {
        self.trials.remove(i)
    }

    /// Puts trial `t` back at position `i`, from where the trial with its id
    /// was taken out of `prev`.
    fn restore_trial(&mut self, i: usize, t: Trial, prev: Ghost<Seq<Trial>>)
        requires
            i < prev@.len(),
            old(self).trials@ == prev@.remove(i as int),
            t.trial_id == prev@[i as int].trial_id,
            t.wf(),
            trial_ids_distinct(prev@),
            forall|j: int| 0 <= j < prev@.len() ==> (#[trigger] prev@[j]).wf(),
        ensures
            final(self).trials@ == prev@.update(i as int, t),
            trial_ids_distinct(final(self).trials@),
            forall|j: int| 0 <= j < final(self).trials@.len() ==> (#[trigger] final(self).trials@[j]).wf(),
            trials_map(final(self).trials@) == trials_map(prev@).insert(t.trial_id, t@),
            *final(self) == (StudyNode { trials: final(self).trials, ..*old(self) }),
    {
        self.trials.insert(i, t);
        assert(self.trials@ =~= prev@.update(i as int, t));
        proof {
            lemma_trials_update(prev@, i as int, t);
        }
        assert forall|j: int| 0 <= j < self.trials@.len() implies (#[trigger] self.trials@[j]).wf() by {
            if j != i {
                assert(self.trials@[j] == prev@[j]);
            }
        }
    }
}

/// The trial that a mutation of a trial is about.
pub open spec fn trial_of_spec(m: Message) -> TrialId {
    match m {
        Message::CreateTrial { trial_id, .. } => trial_id,
        Message::SetTrialState { trial_id, .. } => trial_id,
        Message::SetTrialParam { trial_id, .. } => trial_id,
        Message::SetTrialValue { trial_id, .. } => trial_id,
        Message::SetTrialIntermediateValue { trial_id, .. } => trial_id,
        Message::SetTrialUserAttr { trial_id, .. } => trial_id,
        Message::SetTrialSystemAttr { trial_id, .. } => trial_id,
        _ => arbitrary(),
    }
}

fn trial_of(m: &Message) -> (r: TrialId)
    requires
        !(m is SetStudyDirection || m is SetStudyUserAttr || m is SetStudySystemAttr),
    ensures
        r == trial_of_spec(*m),
{
    match m {
        Message::CreateTrial { trial_id, .. } => *trial_id,
        Message::SetTrialState { trial_id, .. } => *trial_id,
        Message::SetTrialParam { trial_id, .. } => *trial_id,
        Message::SetTrialValue { trial_id, .. } => *trial_id,
        Message::SetTrialIntermediateValue { trial_id, .. } => *trial_id,
        Message::SetTrialUserAttr { trial_id, .. } => *trial_id,
        Message::SetTrialSystemAttr { trial_id, .. } => *trial_id,
        _ => TrialId { study: StudyId(0), local: 0 },
    }
}

/// Setting a study attribute, with a write newer than any recorded for that
/// key, takes effect, and the summary (which carries the node's attributes)
/// then holds the new value under the key.
pub proof fn lemma_set_attr_then_summary(
    s: StudyView,
    ledger: Map<crate::operation::KeyView, Operation>,
    mid: MessageId,
    key: String,
    value: String,
    timestamp: Timestamp,
    system: bool,
)
    requires
        ({
            let m = if system {
                Message::SetStudySystemAttr { key, value, timestamp }
            } else {
                Message::SetStudyUserAttr { key, value, timestamp }
            };
            let k = key_of(m);
            !ledger.contains_key(k) || crate::operation::op_lt(ledger[k], Operation { timestamp, mid })
        }),
    ensures
        ({
            let m = if system {
                Message::SetStudySystemAttr { key, value, timestamp }
            } else {
                Message::SetStudyUserAttr { key, value, timestamp }
            };
            let after = study_after(s, m);
            &&& observe_spec(ledger, key_of(m), Operation { timestamp: timestamp_of(m), mid }).0 == AcceptDecision::Accept
            &&& (system ==> after.system_attrs.contains_key(key@) && after.system_attrs[key@] == value)
            &&& (!system ==> after.user_attrs.contains_key(key@) && after.user_attrs[key@] == value)
        }),
{
    let m = if system {
        Message::SetStudySystemAttr { key, value, timestamp }
    } else {
        Message::SetStudyUserAttr { key, value, timestamp }
    };
    crate::operation::lemma_newer_write_accepted(ledger, key_of(m), Operation { timestamp, mid });
}

/// One delivery on a node, as values: the ledger and the study state after
/// message `m`, delivered as `mid`, is observed.
pub open spec fn node_step(
    ledger: Map<crate::operation::KeyView, Operation>,
    state: StudyView,
    mid: MessageId,
    m: Message,
) -> (Map<crate::operation::KeyView, Operation>, StudyView) {
    let (d, _, l) = observe_spec(ledger, key_of(m), Operation { timestamp: timestamp_of(m), mid });
    (l, if d == AcceptDecision::Accept { study_after(state, m) } else { state })
}

/// Of two mutations of the same slot, the later one alone decides the slot.
pub proof fn lemma_later_write_overrides(s: StudyView, a: Message, b: Message)
    requires
        key_of(a) == key_of(b),
    ensures
        study_after(study_after(s, a), b) == study_after(s, b),
{
    let ab = study_after(study_after(s, a), b);
    let sb = study_after(s, b);
    match a {
        Message::SetStudyUserAttr { .. } => {
            assert(ab.user_attrs =~= sb.user_attrs);
        },
        Message::SetStudySystemAttr { .. } => {
            assert(ab.system_attrs =~= sb.system_attrs);
        },
        Message::SetStudyDirection { .. } => {},
        _ => {
            let id = trial_of_spec(a);
            assert(trial_of_spec(b) == id);
            let t0 = trial_or_blank(s.trials, id);
            let ta = study_after(s, a).trials[id];
            assert(trial_or_blank(study_after(s, a).trials, id) == ta);
            match b {
                Message::SetTrialParam { key, value, .. } => {
                    assert(ta.params.insert(key@, value) =~= t0.params.insert(key@, value));
                },
                Message::SetTrialIntermediateValue { step, value, .. } => {
                    assert(ta.intermediate_values.insert(step, value) =~= t0.intermediate_values.insert(step, value));
                },
                Message::SetTrialUserAttr { key, value, .. } => {
                    assert(ta.user_attrs.insert(key@, value) =~= t0.user_attrs.insert(key@, value));
                },
                Message::SetTrialSystemAttr { key, value, .. } => {
                    assert(ta.system_attrs.insert(key@, value) =~= t0.system_attrs.insert(key@, value));
                },
                _ => {},
            }
            assert(ab.trials =~= sb.trials);
        },
    }
}

/// Two conflicting mutations (same slot, different messages), delivered to
/// two nodes in the two orders from the same state, leave both nodes in the
/// same state: that of the newer write under the last-writer-wins order.
pub proof fn lemma_lww_converges(
    ledger: Map<crate::operation::KeyView, Operation>,
    state: StudyView,
    mid_a: MessageId,
    a: Message,
    mid_b: MessageId,
    b: Message,
)
    requires
        key_of(a) == key_of(b),
        mid_a != mid_b,
    ensures
        ({
            let (l1, s1) = node_step(ledger, state, mid_a, a);
            let (l2, s2) = node_step(ledger, state, mid_b, b);
            node_step(l1, s1, mid_b, b) == node_step(l2, s2, mid_a, a)
        }),
{
    let k = key_of(a);
    let oa = Operation { timestamp: timestamp_of(a), mid: mid_a };
    let ob = Operation { timestamp: timestamp_of(b), mid: mid_b };
    crate::operation::lemma_observe_commutes(ledger, k, oa, ob);
    crate::operation::lemma_op_order_total(oa, ob);
    lemma_later_write_overrides(state, a, b);
    lemma_later_write_overrides(state, b, a);
    if ledger.contains_key(k) {
        let e = ledger[k];
        if e != oa {
            crate::operation::lemma_op_order_total(e, oa);
        }
        if e != ob {
            crate::operation::lemma_op_order_total(e, ob);
        }
        crate::operation::lemma_op_lt_transitive(e, oa, ob);
        crate::operation::lemma_op_lt_transitive(e, ob, oa);
        crate::operation::lemma_op_lt_transitive(oa, ob, e);
        crate::operation::lemma_op_lt_transitive(ob, oa, e);
        crate::operation::lemma_op_lt_transitive(oa, e, ob);
        crate::operation::lemma_op_lt_transitive(ob, e, oa);
    }
}

} // verus!
