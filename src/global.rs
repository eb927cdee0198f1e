use crate::error::ErrorKind;
use crate::forget::ForgetQueue;
use crate::ids::{MessageId, NodeRef, StudyId, StudyName, StudyNameAndId};
use crate::time::{deadline_after, deadline_spec};
use vstd::prelude::*;

verus! {

/// A message on the cluster-wide overlay.
#[derive(Debug)]
pub enum Message {
    /// A peer is creating study `name` under `id`.
    CreateStudy { name: StudyName, id: StudyId },
    /// A peer looks for study `name`.
    JoinStudy { name: StudyName },
}

impl Message {
    pub fn duplicate(&self) -> (r: Message)
        ensures
            r == *self,
    {
        match self {
            Message::CreateStudy { name, id } => Message::CreateStudy { name: name.duplicate(), id: *id },
            Message::JoinStudy { name } => Message::JoinStudy { name: name.duplicate() },
        }
    }
}

/// Which bootstrap contact a study notification carries.
#[derive(Clone, Copy, Debug, PartialEq, Eq, Structural)]
pub enum Contact {
    /// None: the study exists, but the sender cannot bootstrap the receiver.
    NoContact,
    /// The sender's own origin on the cluster overlay.
    ClusterNode,
    /// The overlay origin of the sender's own node for the study.
    HostedStudy,
}

/// What the node asks its host to do.
#[derive(Debug)]
pub enum Action {
    /// Broadcast `0` on the cluster overlay.
    Broadcast(Message),
    /// Send a study notification to the node that sent message `to`.
    Notify { to: MessageId, study: StudyNameAndId, contact: Contact },
    /// Start a study node for `study`, joining the overlay of `contact` if given.
    Spawn { study: StudyNameAndId, contact: Option<NodeRef> },
    /// Answer the creation request `ticket`.
    ReplyCreate { ticket: u64, result: Result<StudyId, ErrorKind> },
    /// Answer the lookup request `ticket`.
    ReplyJoin { ticket: u64, result: Result<StudyId, ErrorKind> },
}

/// A creation in flight: the id proposed, when it resolves, the request to
/// answer, and the lookups received meanwhile.
#[derive(Debug)]
pub struct Creating {
    pub name: StudyName,
    pub study_id: StudyId,
    pub deadline: u64,
    pub ticket: u64,
    pub waitings: Vec<MessageId>,
}

/// A lookup in flight: the name, when it gives up, the request to answer.
#[derive(Debug)]
pub struct Joining {
    pub name: StudyName,
    pub deadline: u64,
    pub ticket: u64,
}

/// The position of the entry named `name`, if any.
pub open spec fn creating_index(s: Seq<Creating>, name: Seq<char>) -> Option<int> {
    if exists|i: int| 0 <= i < s.len() && s[i].name@ == name {
        Some(choose|i: int| 0 <= i < s.len() && s[i].name@ == name)
    } else {
        None
    }
}

pub open spec fn name_index(s: Seq<StudyNameAndId>, name: Seq<char>) -> Option<int> {
    if exists|i: int| 0 <= i < s.len() && s[i].study_name@ == name {
        Some(choose|i: int| 0 <= i < s.len() && s[i].study_name@ == name)
    } else {
        None
    }
}

pub open spec fn creating_names_distinct(s: Seq<Creating>) -> bool {
    forall|i: int, j: int| 0 <= i < j < s.len() ==> s[i].name@ != s[j].name@
}

pub open spec fn study_names_distinct(s: Seq<StudyNameAndId>) -> bool {
    forall|i: int, j: int| 0 <= i < j < s.len() ==> s[i].study_name@ != s[j].study_name@
}

/// The name-to-id resolutions that a list of studies holds.
pub open spec fn names_map(s: Seq<StudyNameAndId>) -> Map<Seq<char>, StudyId>
    decreases s.len(),
{
    if s.len() == 0 {
        Map::empty()
    } else {
        names_map(s.drop_last()).insert(s.last().study_name@, s.last().study_id)
    }
}

proof fn lemma_creating_index(s: Seq<Creating>, i: int)
    requires
        creating_names_distinct(s),
        0 <= i < s.len(),
    ensures
        creating_index(s, s[i].name@) == Some(i),
{
    let k = choose|k: int| 0 <= k < s.len() && s[k].name@ == s[i].name@;
    if k != i {
        if k < i {
            assert(s[k].name@ != s[i].name@);
        } else {
            assert(s[i].name@ != s[k].name@);
        }
    }
}

proof fn lemma_name_index(s: Seq<StudyNameAndId>, i: int)
    requires
        study_names_distinct(s),
        0 <= i < s.len(),
    ensures
        name_index(s, s[i].study_name@) == Some(i),
{
    let k = choose|k: int| 0 <= k < s.len() && s[k].study_name@ == s[i].study_name@;
    if k != i {
        if k < i {
            assert(s[k].study_name@ != s[i].study_name@);
        } else {
            assert(s[i].study_name@ != s[k].study_name@);
        }
    }
}

proof fn lemma_names_map(s: Seq<StudyNameAndId>)
    requires
        study_names_distinct(s),
    ensures
        forall|k: Seq<char>| #[trigger] names_map(s).contains_key(k) <==> name_index(s, k) is Some,
        forall|k: Seq<char>| name_index(s, k) is Some ==> #[trigger] names_map(s)[k] == s[name_index(s, k)->0].study_id,
    decreases s.len(),
{
    if s.len() > 0 {
        let t = s.drop_last();
        assert(study_names_distinct(t)) by {
            assert forall|i: int, j: int| 0 <= i < j < t.len() implies t[i].study_name@ != t[j].study_name@ by {
                assert(t[i] == s[i] && t[j] == s[j]);
            }
        }
        lemma_names_map(t);
        let l = s.len() - 1;
        lemma_name_index(s, l);
        assert forall|k: Seq<char>| #[trigger] names_map(s).contains_key(k) <==> name_index(s, k) is Some by {
            assert(names_map(s) == names_map(t).insert(s[l].study_name@, s[l].study_id));
            if k == s[l].study_name@ {
                assert(0 <= l < s.len() && s[l].study_name@ == k);
            } else {
                assert(names_map(s).contains_key(k) == names_map(t).contains_key(k));
                assert(names_map(t).contains_key(k) <==> name_index(t, k) is Some);
                if name_index(t, k) is Some {
                    let i = name_index(t, k)->0;
                    assert(s[i] == t[i]);
                    assert(0 <= i < s.len() && s[i].study_name@ == k);
                }
                if name_index(s, k) is Some {
                    let i = name_index(s, k)->0;
                    assert(i != l);
                    assert(t[i] == s[i]);
                    assert(0 <= i < t.len() && t[i].study_name@ == k);
                }
            }
        }
        assert forall|k: Seq<char>| name_index(s, k) is Some implies #[trigger] names_map(s)[k] == s[name_index(s, k)->0].study_id by {
            let i = name_index(s, k)->0;
            if k != s[l].study_name@ {
                assert(i != l);
                assert(t[i] == s[i]);
                lemma_name_index(t, i);
                assert(names_map(t).contains_key(k));
            }
        }
    }
}

/// A copy of a list of studies.
fn copy_studies(v: &Vec<StudyNameAndId>) -> (r: Vec<StudyNameAndId>)
    ensures
        r@ == v@,
{
    let mut out: Vec<StudyNameAndId> = Vec::new();
    let mut i: usize = 0;
    while i < v.len()
        invariant
            i <= v@.len(),
            out@ == v@.subrange(0, i as int),
        decreases v@.len() - i,
    {
        out.push(v[i].duplicate());
        assert(out@ =~= v@.subrange(0, i + 1));
        i = i + 1;
    }
    assert(out@ =~= v@);
    out
}

/// The position of `name` in `v`, whose names are distinct.
fn find_in(v: &Vec<StudyNameAndId>, name: &StudyName) -> (r: Option<usize>)
    requires
        study_names_distinct(v@),
    ensures
        match r {
            Some(i) => name_index(v@, name@) == Some(i as int),
            None => name_index(v@, name@) is None,
        },
{
    let mut i: usize = 0;
    while i < v.len()
        invariant
            i <= v@.len(),
            study_names_distinct(v@),
            forall|j: int| 0 <= j < i ==> v@[j].study_name@ != name@,
        decreases v@.len() - i,
    {
        if v[i].study_name.same(name) {
            proof {
                lemma_name_index(v@, i as int);
            }
            return Some(i);
        }
        i = i + 1;
    }
    None
}

/// The cluster-wide resolution of study names on one peer: creations and
/// lookups in flight, the studies this peer hosts, the studies it knows to be
/// hosted elsewhere, and the messages it will tell the overlay to forget.
#[derive(Debug)]
pub struct GlobalNode {
    pub creatings: Vec<Creating>,
    pub joinings: Vec<Joining>,
    pub study_names: Vec<StudyNameAndId>,
    pub known: Vec<StudyNameAndId>,
    pub forget_queue: ForgetQueue,
}

/// Whether no study of `s` has id `id`.
pub open spec fn id_free(s: Seq<StudyNameAndId>, id: StudyId) -> bool {
    forall|j: int| 0 <= j < s.len() ==> (#[trigger] s[j]).study_id != id
}

/// Whether no creation of `s` proposes id `id`.
pub open spec fn creating_id_free(s: Seq<Creating>, id: StudyId) -> bool {
    forall|j: int| 0 <= j < s.len() ==> (#[trigger] s[j]).study_id != id
}

pub open spec fn ids_distinct(s: Seq<StudyNameAndId>) -> bool {
    forall|i: int, j: int| 0 <= i < j < s.len() ==> s[i].study_id != s[j].study_id
}

/// A creation in flight shares its name with no study hosted or known here,
/// and its id with no hosted study.
pub open spec fn creating_apart(c: Creating, hosted: Seq<StudyNameAndId>, known: Seq<StudyNameAndId>) -> bool {
    &&& name_index(hosted, c.name@) is None
    &&& name_index(known, c.name@) is None
    &&& id_free(hosted, c.study_id)
}

impl GlobalNode {
    /// Names and ids resolve one way: each name is hosted, known or being
    /// created at most once, hosted ids are distinct, and a creation in flight
    /// proposes an id that nothing hosted or created here uses.
    pub open spec fn wf(&self) -> bool {
        &&& creating_names_distinct(self.creatings@)
        &&& study_names_distinct(self.study_names@)
        &&& study_names_distinct(self.known@)
        &&& ids_distinct(self.study_names@)
        &&& forall|i: int| 0 <= i < self.known@.len() ==> name_index(self.study_names@, (#[trigger] self.known@[i]).study_name@) is None
        &&& forall|i: int| 0 <= i < self.creatings@.len() ==> creating_apart(#[trigger] self.creatings@[i], self.study_names@, self.known@)
        &&& forall|i: int, j: int| 0 <= i < j < self.creatings@.len() ==> self.creatings@[i].study_id != self.creatings@[j].study_id
    }

    /// The studies known to be hosted elsewhere, by name.
    pub open spec fn known_names(&self) -> Map<Seq<char>, StudyId> {
        names_map(self.known@)
    }

    /// The studies hosted here, by name.
    pub open spec fn names(&self) -> Map<Seq<char>, StudyId> {
        names_map(self.study_names@)
    }

    pub fn new() -> (r: GlobalNode)
        ensures
            r.wf(),
            r.creatings@.len() == 0,
            r.joinings@.len() == 0,
            r.study_names@.len() == 0,
            r.known@.len() == 0,
            r.forget_queue.entries@.len() == 0,
    {
        GlobalNode {
            creatings: Vec::new(),
            joinings: Vec::new(),
            study_names: Vec::new(),
            known: Vec::new(),
            forget_queue: ForgetQueue::new(),
        }
    }

    /// The position of the creation of `name`, if one is in flight.
    fn find_creating(&self, name: &StudyName) -> (r: Option<usize>)
        requires
            self.wf(),
        ensures
            match r {
                Some(i) => creating_index(self.creatings@, name@) == Some(i as int),
                None => creating_index(self.creatings@, name@) is None,
            },
    {
        let mut i: usize = 0;
        while i < self.creatings.len()
            invariant
                i <= self.creatings@.len(),
                creating_names_distinct(self.creatings@),
                forall|j: int| 0 <= j < i ==> self.creatings@[j].name@ != name@,
            decreases self.creatings@.len() - i,
        {
            if self.creatings[i].name.same(name) {
                proof {
                    lemma_creating_index(self.creatings@, i as int);
                }
                return Some(i);
            }
            i = i + 1;
        }
        None
    }

    /// The position of `name` among the hosted studies, if any.
    fn find_name(&self, name: &StudyName) -> (r: Option<usize>)
        requires
            self.wf(),
        ensures
            match r {
                Some(i) => name_index(self.study_names@, name@) == Some(i as int),
                None => name_index(self.study_names@, name@) is None,
            },
    {
        find_in(&self.study_names, name)
    }

    /// The position of `name` among the studies known elsewhere, if any.
    fn find_known(&self, name: &StudyName) -> (r: Option<usize>)
        requires
            self.wf(),
        ensures
            match r {
                Some(i) => name_index(self.known@, name@) == Some(i as int),
                None => name_index(self.known@, name@) is None,
            },
    {
        find_in(&self.known, name)
    }

    /// Whether `id` is hosted here or proposed by a creation in flight.
    pub fn id_in_use(&self, id: StudyId) -> (r: bool)
        ensures
            r == !(id_free(self.study_names@, id) && creating_id_free(self.creatings@, id)),
    {
        let mut i: usize = 0;
        while i < self.study_names.len()
            invariant
                i <= self.study_names@.len(),
                forall|j: int| 0 <= j < i ==> (#[trigger] self.study_names@[j]).study_id != id,
            decreases self.study_names@.len() - i,
        {
            if self.study_names[i].study_id == id {
                return true;
            }
            i = i + 1;
        }
        let mut k: usize = 0;
        while k < self.creatings.len()
            invariant
                k <= self.creatings@.len(),
                id_free(self.study_names@, id),
                forall|j: int| 0 <= j < k ==> (#[trigger] self.creatings@[j]).study_id != id,
            decreases self.creatings@.len() - k,
        {
            if self.creatings[k].study_id == id {
                return true;
            }
            k = k + 1;
        }
        false
    }

    /// A request, answered through `ticket`, to create study `name` under the
    /// fresh `id` (one that nothing hosted or being created here uses).
    /// Refused with `AlreadyExists` while a creation of that name is in
    /// flight, and when this peer hosts the name: a name is never both hosted
    /// and being created. Otherwise the creation is announced and resolves at
    /// `now + wait_ms` unless a peer's claim wins first; a record of the name
    /// as hosted elsewhere is dropped, since a peer that still hosts it
    /// answers the announcement.
    pub fn create_study(&mut self, name: StudyName, id: StudyId, wait_ms: u64, ticket: u64, now: u64) -> (r: Vec<Action>)
        requires
            old(self).wf(),
            id_free(old(self).study_names@, id),
            creating_id_free(old(self).creatings@, id),
        ensures
            final(self).wf(),
            create_refused(*old(self), name@) ==> {
                &&& r@ == seq![Action::ReplyCreate { ticket, result: Err(ErrorKind::AlreadyExists) }]
                &&& *final(self) == *old(self)
            },
            !create_refused(*old(self), name@) ==> {
                &&& r@ == seq![Action::Broadcast(Message::CreateStudy { name, id })]
                &&& final(self).creatings@.len() == old(self).creatings@.len() + 1
                &&& final(self).creatings@.drop_last() == old(self).creatings@
                &&& final(self).creatings@.last().name == name
                &&& final(self).creatings@.last().study_id == id
                &&& final(self).creatings@.last().deadline == deadline_spec(now, wait_ms)
                &&& final(self).creatings@.last().ticket == ticket
                &&& final(self).creatings@.last().waitings@.len() == 0
                &&& final(self).known@ == known_without(old(self).known@, name@)
                &&& *final(self) == (GlobalNode { creatings: final(self).creatings, known: final(self).known, ..*old(self) })
            },
    {
        if self.find_creating(&name).is_some() || self.find_name(&name).is_some() {
            return vec![Action::ReplyCreate { ticket, result: Err(ErrorKind::AlreadyExists) }];
        }
        self.forget_known(&name);
        let m = Message::CreateStudy { name: name.duplicate(), id };
        let ghost before = self.creatings@;
        self.creatings.push(Creating { name, study_id: id, deadline: deadline_after(now, wait_ms), ticket, waitings: Vec::new() });
        assert(self.creatings@.drop_last() =~= before);
        assert forall|i: int, j: int| 0 <= i < j < self.creatings@.len() implies self.creatings@[i].name@ != self.creatings@[j].name@
            && self.creatings@[i].study_id != self.creatings@[j].study_id by {
            assert(self.creatings@[i] == before[i]);
            if j < before.len() {
                assert(self.creatings@[j] == before[j]);
            } else {
                assert(creating_index(before, self.creatings@[j].name@) is None);
            }
        }
        assert forall|i: int| 0 <= i < self.creatings@.len() implies creating_apart(#[trigger] self.creatings@[i], self.study_names@, self.known@) by {
            if i < before.len() {
                assert(self.creatings@[i] == before[i]);
            }
        }
        vec![Action::Broadcast(m)]
    }

    /// Drops the record of `name` as hosted elsewhere, if there is one.
    fn forget_known(&mut self, name: &StudyName)
        requires
            old(self).wf(),
        ensures
            final(self).wf(),
            final(self).known@ == known_without(old(self).known@, name@),
            name_index(final(self).known@, name@) is None,
            *final(self) == (GlobalNode { known: final(self).known, ..*old(self) }),
    {
        let ghost k0 = self.known@;
        match self.find_known(name) {
            Some(i) => {
                self.known.remove(i);
                let ghost k = self.known@;
                proof {
                    lemma_name_index(k0, i as int);
                }
                assert forall|j: int| 0 <= j < k.len() implies #[trigger] k[j] == k0[if j < i { j } else { j + 1 }] by {}
                assert forall|a: int, b: int| 0 <= a < b < k.len() implies k[a].study_name@ != k[b].study_name@ by {
                    assert(k[a] == k0[if a < i { a } else { a + 1 }]);
                    assert(k[b] == k0[if b < i { b } else { b + 1 }]);
                }
                assert forall|j: int| 0 <= j < k.len() implies name_index(self.study_names@, (#[trigger] k[j]).study_name@) is None by {
                    assert(k[j] == k0[if j < i { j } else { j + 1 }]);
                }
                assert(name_index(k, name@) is None) by {
                    if name_index(k, name@) is Some {
                        let j = choose|j: int| 0 <= j < k.len() && k[j].study_name@ == name@;
                        let x = if j < i { j } else { j + 1 };
                        assert(k[j] == k0[x]);
                        lemma_name_index(k0, x);
                    }
                }
                assert forall|j: int| 0 <= j < self.creatings@.len() implies creating_apart(#[trigger] self.creatings@[j], self.study_names@, k) by {
                    let c = self.creatings@[j];
                    assert(creating_apart(c, self.study_names@, k0));
                    if name_index(k, c.name@) is Some {
                        let y = choose|y: int| 0 <= y < k.len() && k[y].study_name@ == c.name@;
                        let x = if y < i { y } else { y + 1 };
                        assert(k[y] == k0[x]);
                        assert(0 <= x < k0.len() && k0[x].study_name@ == c.name@);
                    }
                }
            },
            None => {},
        }
    }

    /// A request, answered through `ticket`, for the id of study `name`:
    /// answered at once when this peer hosts it or knows it; otherwise the lookup is
    /// announced and gives up at `now + wait_ms`.
    pub fn join_study(&mut self, name: StudyName, wait_ms: u64, ticket: u64, now: u64) -> (r: Vec<Action>)
        requires
            old(self).wf(),
        ensures
            final(self).wf(),
            old(self).names().contains_key(name@) ==> {
                &&& r@ == seq![Action::ReplyJoin { ticket, result: Ok(old(self).names()[name@]) }]
                &&& *final(self) == *old(self)
            },
            !old(self).names().contains_key(name@) && old(self).known_names().contains_key(name@) ==> {
                &&& r@ == seq![Action::ReplyJoin { ticket, result: Ok(old(self).known_names()[name@]) }]
                &&& *final(self) == *old(self)
            },
            !old(self).names().contains_key(name@) && !old(self).known_names().contains_key(name@) ==> {
                &&& r@ == seq![Action::Broadcast(Message::JoinStudy { name })]
                &&& final(self).joinings@ == old(self).joinings@.push(Joining { name, deadline: deadline_spec(now, wait_ms), ticket })
                &&& *final(self) == (GlobalNode { joinings: final(self).joinings, ..*old(self) })
            },
    {
        proof {
            lemma_names_map(self.study_names@);
            lemma_names_map(self.known@);
        }
        match self.find_name(&name) {
            Some(i) => {
                return vec![Action::ReplyJoin { ticket, result: Ok(self.study_names[i].study_id) }];
            },
            None => {},
        }
        match self.find_known(&name) {
            Some(i) => {
                return vec![Action::ReplyJoin { ticket, result: Ok(self.known[i].study_id) }];
            },
            None => {},
        }
        let m = Message::JoinStudy { name: name.duplicate() };
        self.joinings.push(Joining { name, deadline: deadline_after(now, wait_ms), ticket });
        vec![Action::Broadcast(m)]
    }

    /// The studies hosted here, then those known to be hosted elsewhere.
    pub fn get_studies(&self) -> (r: Vec<StudyNameAndId>)
        ensures
            r@ == self.study_names@ + self.known@,
    {
        let mut out = copy_studies(&self.study_names);
        let mut more = copy_studies(&self.known);
        out.append(&mut more);
        out
    }

    /// The study node of `study` has terminated: its name is no longer hosted here.
    pub fn notify_study_node_down(&mut self, study: &StudyNameAndId)
        requires
            old(self).wf(),
        ensures
            final(self).wf(),
            final(self).names() == old(self).names().remove(study.study_name@),
            *final(self) == (GlobalNode { study_names: final(self).study_names, ..*old(self) }),
    {
        proof {
            lemma_names_map(self.study_names@);
        }
        match self.find_name(&study.study_name) {
            Some(i) => {
                let ghost before = self.study_names@;
                self.study_names.remove(i);
                proof {
                    self.lemma_removed(before, i as int);
                }
            },
            None => {
                assert(self.names() =~= self.names().remove(study.study_name@));
            },
        }
    }

    proof fn lemma_removed(&self, before: Seq<StudyNameAndId>, i: int)
        requires
            study_names_distinct(before),
            0 <= i < before.len(),
            self.study_names@ == before.remove(i),
        ensures
            study_names_distinct(self.study_names@),
            names_map(self.study_names@) == names_map(before).remove(before[i].study_name@),
    {
        let s = self.study_names@;
        assert forall|a: int, b: int| 0 <= a < b < s.len() implies s[a].study_name@ != s[b].study_name@ by {
            let a0 = if a < i { a } else { a + 1 };
            let b0 = if b < i { b } else { b + 1 };
            assert(s[a] == before[a0] && s[b] == before[b0]);
        }
        lemma_names_map(before);
        lemma_names_map(s);
        lemma_name_index(before, i);
        let x = names_map(s);
        let y = names_map(before).remove(before[i].study_name@);
        assert forall|k: Seq<char>| x.contains_key(k) <==> y.contains_key(k) by {
            if name_index(s, k) is Some {
                let a = name_index(s, k)->0;
                let a0 = if a < i { a } else { a + 1 };
                assert(s[a] == before[a0]);
                assert(before[a0].study_name@ != before[i].study_name@);
            }
            if name_index(before, k) is Some && k != before[i].study_name@ {
                let a0 = name_index(before, k)->0;
                let a = if a0 < i { a0 } else { a0 - 1 };
                assert(s[a] == before[a0]);
            }
        }
        assert forall|k: Seq<char>| x.contains_key(k) implies x[k] == y[k] by {
            let a = name_index(s, k)->0;
            let a0 = if a < i { a } else { a + 1 };
            assert(s[a] == before[a0]);
            lemma_name_index(s, a);
            lemma_name_index(before, a0);
        }
        assert(x =~= y);
    }

    /// Handles a message of the cluster overlay delivered at `now` as `mid`.
    /// It is scheduled to be forgotten. A competing creation of a name whose
    /// creation is in flight here is resolved by id: the smaller id wins; when
    /// the peer's wins, the local request fails with `AlreadyExists` and the
    /// name is recorded as hosted elsewhere under the peer's id; when the local
    /// one wins, the peer is told, with this node's cluster origin. A peer
    /// claiming, under another id, a name hosted here, or looking for it, is
    /// told the hosted id; a lookup of a name being created here is answered
    /// once the creation resolves. The hosted names never change here.
    pub fn handle_message(&mut self, mid: MessageId, m: Message, now: u64) -> (r: Vec<Action>)
        requires
            old(self).wf(),
        ensures
            final(self).wf(),
            final(self).study_names == old(self).study_names,
            final(self).names() == old(self).names(),
            final(self).joinings == old(self).joinings,
            final(self).forget_queue.entries@ == old(self).forget_queue.entries@.push(
                (deadline_spec(now, crate::forget::FORGET_DELAY_MS), mid),
            ),
            match m {
                Message::CreateStudy { name, id } => {
                    &&& r@ == on_create_claim(old(self).creatings@, mid, name, id) + on_hosted_claim(old(self).study_names@, mid, name, id)
                    &&& final(self).creatings@ == creatings_after_claim(old(self).creatings@, name@, id)
                    &&& final(self).known@ == (if claim_wins(old(self).creatings@, name@, id) {
                        old(self).known@.push(StudyNameAndId { study_name: name, study_id: id })
                    } else {
                        old(self).known@
                    })
                },
                Message::JoinStudy { name } => {
                    &&& final(self).known == old(self).known
                    &&& r@ == on_lookup(old(self).study_names@, mid, name)
                    &&& lookup_recorded(old(self).creatings@, final(self).creatings@, old(self).study_names@, mid, name@)
                },
            },
    {
        self.forget_queue.push(now, mid);
        match m {
            Message::CreateStudy { name, id } => {
                let mut actions: Vec<Action> = Vec::new();
                match self.find_creating(&name) {
                    Some(i) => {
                        let cid = self.creatings[i].study_id;
                        if cid == id {
                        } else if cid.0 < id.0 {
                            actions.push(Action::Notify {
                                to: mid,
                                study: StudyNameAndId { study_name: name.duplicate(), study_id: cid },
                                contact: Contact::ClusterNode,
                            });
                        } else {
                            let ghost before = self.creatings@;
                            let c = self.creatings.remove(i);
                            proof {
                                lemma_creatings_remove(before, i as int);
                                lemma_creating_removed_apart(before, self.study_names@, self.known@, i as int);
                                assert(creating_apart(before[i as int], self.study_names@, self.known@));
                                assert(creating_index(self.creatings@, name@) is None) by {
                                    if creating_index(self.creatings@, name@) is Some {
                                        let j = choose|j: int| 0 <= j < self.creatings@.len() && self.creatings@[j].name@ == name@;
                                        let x = if j < i { j } else { j + 1 };
                                        assert(before[x] == self.creatings@[j]);
                                    }
                                }
                            }
                            self.record_known(StudyNameAndId { study_name: name.duplicate(), study_id: id });
                            actions.push(Action::ReplyCreate { ticket: c.ticket, result: Err(ErrorKind::AlreadyExists) });
                        }
                    },
                    None => {},
                }
                let ghost part1 = actions@;
                match self.find_name(&name) {
                    Some(j) => {
                        let own = self.study_names[j].study_id;
                        if own != id {
                            actions.push(Action::Notify {
                                to: mid,
                                study: self.study_names[j].duplicate(),
                                contact: Contact::HostedStudy,
                            });
                        }
                    },
                    None => {},
                }
                assert(actions@ =~= part1 + on_hosted_claim(old(self).study_names@, mid, name, id));
                actions
            },
            Message::JoinStudy { name } => {
                match self.find_name(&name) {
                    Some(j) => {
                        return vec![Action::Notify {
                            to: mid,
                            study: self.study_names[j].duplicate(),
                            contact: Contact::HostedStudy,
                        }];
                    },
                    None => {},
                }
                match self.find_creating(&name) {
                    Some(i) => {
                        let ghost before = self.creatings@;
                        let mut c = self.creatings.remove(i);
                        c.waitings.push(mid);
                        self.creatings.insert(i, c);
                        assert(self.creatings@ =~= before.update(i as int, self.creatings@[i as int]));
                        proof {
                            lemma_creatings_update(before, i as int, self.creatings@[i as int]);
                        }
                    },
                    None => {},
                }
                Vec::new()
            },
        }
    }
}

impl GlobalNode {
    /// Starts hosting `study`, a name and an id used by nothing hosted or
    /// being created here; the name is no longer only known elsewhere.
    fn host(&mut self, study: StudyNameAndId)
        requires
            old(self).wf(),
            name_index(old(self).study_names@, study.study_name@) is None,
            id_free(old(self).study_names@, study.study_id),
            creating_index(old(self).creatings@, study.study_name@) is None,
            creating_id_free(old(self).creatings@, study.study_id),
        ensures
            final(self).wf(),
            final(self).study_names@ == old(self).study_names@.push(study),
            final(self).known@ == known_without(old(self).known@, study.study_name@),
            *final(self) == (GlobalNode { study_names: final(self).study_names, known: final(self).known, ..*old(self) }),
    {
        let ghost k0 = self.known@;
        match self.find_known(&study.study_name) {
            Some(i) => {
                self.known.remove(i);
                assert forall|a: int, b: int| 0 <= a < b < self.known@.len() implies
                    self.known@[a].study_name@ != self.known@[b].study_name@ by {
                    let a0 = if a < i { a } else { a + 1 };
                    let b0 = if b < i { b } else { b + 1 };
                    assert(self.known@[a] == k0[a0] && self.known@[b] == k0[b0]);
                }
            },
            None => {},
        }
        assert forall|j: int| 0 <= j < self.known@.len() implies #[trigger] self.known@[j] == k0[j]
            || exists|x: int| 0 <= x < k0.len() && k0[x] == self.known@[j] by {
            match name_index(k0, study.study_name@) {
                Some(i) => {
                    let x = if j < i { j } else { j + 1 };
                    assert(k0[x] == self.known@[j]);
                },
                None => {},
            }
        }
        assert forall|j: int| 0 <= j < self.known@.len() implies (#[trigger] self.known@[j]).study_name@ != study.study_name@ by {
            match name_index(k0, study.study_name@) {
                Some(i) => {
                    let x = if j < i { j } else { j + 1 };
                    assert(k0[x] == self.known@[j]);
                    lemma_name_index(k0, i);
                    if k0[x].study_name@ == study.study_name@ {
                        lemma_name_index(k0, x);
                    }
                },
                None => {
                    assert(self.known@[j] == k0[j]);
                },
            }
        }
        let ghost h0 = self.study_names@;
        self.study_names.push(study);
        let ghost h = self.study_names@;
        assert(h.drop_last() =~= h0);
        assert forall|a: int, b: int| 0 <= a < b < h.len() implies h[a].study_name@ != h[b].study_name@
            && h[a].study_id != h[b].study_id by {
            assert(h[a] == h0[a]);
            if b < h0.len() {
                assert(h[b] == h0[b]);
            } else {
                assert(h0[a].study_name@ != study.study_name@) by {
                    if h0[a].study_name@ == study.study_name@ {
                        assert(0 <= a < h0.len() && h0[a].study_name@ == study.study_name@);
                    }
                }
            }
        }
        assert forall|j: int| 0 <= j < self.known@.len() implies name_index(h, (#[trigger] self.known@[j]).study_name@) is None by {
            let kj = self.known@[j];
            let x = choose|x: int| 0 <= x < k0.len() && k0[x] == kj;
            assert(name_index(h0, k0[x].study_name@) is None);
            if name_index(h, kj.study_name@) is Some {
                let y = choose|y: int| 0 <= y < h.len() && h[y].study_name@ == kj.study_name@;
                if y < h0.len() {
                    assert(h[y] == h0[y]);
                    assert(0 <= y < h0.len() && h0[y].study_name@ == k0[x].study_name@);
                }
            }
        }
        assert forall|j: int| 0 <= j < self.creatings@.len() implies creating_apart(#[trigger] self.creatings@[j], h, self.known@) by {
            let c = self.creatings@[j];
            assert(creating_apart(c, h0, k0));
            assert(c.name@ != study.study_name@) by {
                if c.name@ == study.study_name@ {
                    assert(0 <= j < self.creatings@.len() && self.creatings@[j].name@ == study.study_name@);
                }
            }
            if name_index(h, c.name@) is Some {
                let y = choose|y: int| 0 <= y < h.len() && h[y].study_name@ == c.name@;
                if y < h0.len() {
                    assert(h[y] == h0[y]);
                    assert(0 <= y < h0.len() && h0[y].study_name@ == c.name@);
                }
            }
            if name_index(self.known@, c.name@) is Some {
                let y = choose|y: int| 0 <= y < self.known@.len() && self.known@[y].study_name@ == c.name@;
                let x = choose|x: int| 0 <= x < k0.len() && k0[x] == self.known@[y];
                assert(0 <= x < k0.len() && k0[x].study_name@ == c.name@);
            }
            assert forall|y: int| 0 <= y < h.len() implies (#[trigger] h[y]).study_id != c.study_id by {
                if y < h0.len() {
                    assert(h[y] == h0[y]);
                }
            }
        }
    }

    /// A peer tells that `study` exists, with `created` as the overlay origin
    /// to join it through, if it offers one. A creation of that name in flight
    /// here fails with `AlreadyExists`. With an origin, every lookup of the
    /// name is answered with the id, and when lookups wait, the name is not
    /// hosted here and the id is free, a node joining that origin is started
    /// for it. Otherwise a name neither hosted nor known here is recorded as
    /// known to be hosted elsewhere.
    pub fn notify_study(&mut self, study: StudyNameAndId, created: Option<NodeRef>) -> (r: Vec<Action>)
        requires
            old(self).wf(),
        ensures
            final(self).wf(),
            final(self).forget_queue == old(self).forget_queue,
            final(self).creatings@ == creatings_without(old(self).creatings@, study.study_name@),
            ({
                let c1 = creatings_without(old(self).creatings@, study.study_name@);
                let name = study.study_name@;
                let spawn = created is Some && joins_waiting(old(self).joinings@, name)
                    && name_index(old(self).study_names@, name) is None
                    && id_free(old(self).study_names@, study.study_id) && creating_id_free(c1, study.study_id);
                let record = !spawn && name_index(old(self).study_names@, name) is None
                    && name_index(old(self).known@, name) is None;
                &&& r@ == on_notified(old(self).creatings@, name)
                    + (if spawn { seq![Action::Spawn { study, contact: created }] } else { seq![] })
                    + (if created is Some { join_replies(old(self).joinings@, name, study.study_id) } else { seq![] })
                &&& final(self).joinings@ == (if created is Some {
                    joinings_without(old(self).joinings@, name)
                } else {
                    old(self).joinings@
                })
                &&& final(self).study_names@ == (if spawn { old(self).study_names@.push(study) } else { old(self).study_names@ })
                &&& final(self).known@ == (if spawn {
                    known_without(old(self).known@, name)
                } else if record {
                    old(self).known@.push(study)
                } else {
                    old(self).known@
                })
            }),
    {
        let mut actions: Vec<Action> = Vec::new();
        match self.find_creating(&study.study_name) {
            Some(i) => {
                let ghost before = self.creatings@;
                let c = self.creatings.remove(i);
                proof {
                    lemma_creatings_remove(before, i as int);
                    lemma_creating_removed_apart(before, self.study_names@, self.known@, i as int);
                }
                actions.push(Action::ReplyCreate { ticket: c.ticket, result: Err(ErrorKind::AlreadyExists) });
            },
            None => {},
        }
        assert(actions@ =~= on_notified(old(self).creatings@, study.study_name@));
        assert(self.creatings@ == creatings_without(old(self).creatings@, study.study_name@));
        assert(creating_index(self.creatings@, study.study_name@) is None) by {
            match creating_index(old(self).creatings@, study.study_name@) {
                Some(i) => {
                    let c0 = old(self).creatings@;
                    if creating_index(self.creatings@, study.study_name@) is Some {
                        let j = choose|j: int| 0 <= j < self.creatings@.len() && self.creatings@[j].name@ == study.study_name@;
                        let x = if j < i { j } else { j + 1 };
                        assert(c0[x] == self.creatings@[j]);
                        assert(c0[i].name@ == study.study_name@);
                    }
                },
                None => {},
            }
        }
        let hosted = self.find_name(&study.study_name).is_some();
        let known = self.find_known(&study.study_name).is_some();
        let spawn = match created {
            Some(_) => self.has_joining(&study.study_name) && !hosted && !self.id_in_use(study.study_id),
            None => false,
        };
        if spawn {
            self.host(study.duplicate());
            actions.push(Action::Spawn { study: study.duplicate(), contact: created });
        } else if !hosted && !known {
            self.record_known(study.duplicate());
        }
        match created {
            Some(_) => {
                let mut replies = self.take_joinings(&study.study_name, study.study_id);
                actions.append(&mut replies);
            },
            None => {},
        }
        actions
    }

    /// Records `study`, neither hosted nor known nor being created here, as
    /// hosted elsewhere.
    fn record_known(&mut self, study: StudyNameAndId)
        requires
            old(self).wf(),
            name_index(old(self).study_names@, study.study_name@) is None,
            name_index(old(self).known@, study.study_name@) is None,
            creating_index(old(self).creatings@, study.study_name@) is None,
        ensures
            final(self).wf(),
            final(self).known@ == old(self).known@.push(study),
            *final(self) == (GlobalNode { known: final(self).known, ..*old(self) }),
    {
        let ghost k0 = self.known@;
        self.known.push(study);
        let ghost k = self.known@;
        assert(k.drop_last() =~= k0);
        assert forall|a: int, b: int| 0 <= a < b < k.len() implies k[a].study_name@ != k[b].study_name@ by {
            assert(k[a] == k0[a]);
            if b < k0.len() {
                assert(k[b] == k0[b]);
            } else {
                if k0[a].study_name@ == study.study_name@ {
                    assert(0 <= a < k0.len() && k0[a].study_name@ == study.study_name@);
                }
            }
        }
        assert forall|j: int| 0 <= j < k.len() implies name_index(self.study_names@, (#[trigger] k[j]).study_name@) is None by {
            if j < k0.len() {
                assert(k[j] == k0[j]);
            }
        }
        assert forall|j: int| 0 <= j < self.creatings@.len() implies creating_apart(#[trigger] self.creatings@[j], self.study_names@, k) by {
            let c = self.creatings@[j];
            assert(creating_apart(c, self.study_names@, k0));
            assert(c.name@ != study.study_name@) by {
                if c.name@ == study.study_name@ {
                    assert(0 <= j < self.creatings@.len() && self.creatings@[j].name@ == study.study_name@);
                }
            }
            if name_index(k, c.name@) is Some {
                let y = choose|y: int| 0 <= y < k.len() && k[y].study_name@ == c.name@;
                if y < k0.len() {
                    assert(k[y] == k0[y]);
                    assert(0 <= y < k0.len() && k0[y].study_name@ == c.name@);
                }
            }
        }
    }

    /// Whether a lookup of `name` is in flight.
    fn has_joining(&self, name: &StudyName) -> (r: bool)
        ensures
            r == joins_waiting(self.joinings@, name@),
    {
        let mut i: usize = 0;
        while i < self.joinings.len()
            invariant
                i <= self.joinings@.len(),
                joins_waiting(self.joinings@.subrange(0, i as int), name@) == false,
            decreases self.joinings@.len() - i,
        {
            let ghost cur = self.joinings@.subrange(0, i + 1);
            assert(cur.drop_last() =~= self.joinings@.subrange(0, i as int));
            if self.joinings[i].name.same(name) {
                proof {
                    lemma_joins_waiting_prefix(self.joinings@, i + 1);
                }
                return true;
            }
            i = i + 1;
        }
        assert(self.joinings@.subrange(0, i as int) =~= self.joinings@);
        false
    }

    /// Removes the lookups of `name`, keeping the others in order, and answers
    /// each with `id`.
    fn take_joinings(&mut self, name: &StudyName, id: StudyId) -> (r: Vec<Action>)
        ensures
            r@ == join_replies(old(self).joinings@, name@, id),
            final(self).joinings@ == joinings_without(old(self).joinings@, name@),
            *final(self) == (GlobalNode { joinings: final(self).joinings, ..*old(self) }),
    {
        let mut rest = self.joinings.split_off(0);
        let ghost whole = rest@;
        assert(whole =~= old(self).joinings@);
        let n = rest.len();
        let mut i: usize = 0;
        let mut kept: Vec<Joining> = Vec::new();
        let mut out: Vec<Action> = Vec::new();
        while rest.len() > 0
            invariant
                n == whole.len(),
                i + rest@.len() == whole.len(),
                rest@ == whole.subrange(i as int, whole.len() as int),
                kept@ == joinings_without(whole.subrange(0, i as int), name@),
                out@ == join_replies(whole.subrange(0, i as int), name@, id),
            decreases rest@.len(),
        {
            let j = rest.remove(0);
            assert(whole[i as int] == j);
            assert(whole.subrange(0, i + 1).drop_last() =~= whole.subrange(0, i as int));
            if j.name.same(name) {
                out.push(Action::ReplyJoin { ticket: j.ticket, result: Ok(id) });
            } else {
                kept.push(j);
            }
            i = i + 1;
            assert(rest@ =~= whole.subrange(i as int, whole.len() as int));
        }
        assert(whole.subrange(0, i as int) =~= whole);
        self.joinings = kept;
        out
    }

    /// Gives up, at `now`, the lookups whose deadline has passed, answering
    /// each with `NotFound`; the others stay, in order.
    pub fn handle_joinings(&mut self, now: u64) -> (r: Vec<Action>)
        ensures
            r@ == expired_joins(old(self).joinings@, now),
            final(self).joinings@ == pending_joins(old(self).joinings@, now),
            *final(self) == (GlobalNode { joinings: final(self).joinings, ..*old(self) }),
    {
        let mut rest = self.joinings.split_off(0);
        let ghost whole = rest@;
        assert(whole =~= old(self).joinings@);
        let n = rest.len();
        let mut i: usize = 0;
        let mut kept: Vec<Joining> = Vec::new();
        let mut out: Vec<Action> = Vec::new();
        while rest.len() > 0
            invariant
                n == whole.len(),
                i + rest@.len() == whole.len(),
                rest@ == whole.subrange(i as int, whole.len() as int),
                kept@ == pending_joins(whole.subrange(0, i as int), now),
                out@ == expired_joins(whole.subrange(0, i as int), now),
            decreases rest@.len(),
        {
            let j = rest.remove(0);
            assert(whole[i as int] == j);
            assert(whole.subrange(0, i + 1).drop_last() =~= whole.subrange(0, i as int));
            if j.deadline <= now {
                out.push(Action::ReplyJoin { ticket: j.ticket, result: Err(ErrorKind::NotFound) });
            } else {
                kept.push(j);
            }
            i = i + 1;
            assert(rest@ =~= whole.subrange(i as int, whole.len() as int));
        }
        assert(whole.subrange(0, i as int) =~= whole);
        self.joinings = kept;
        out
    }

    /// Resolves, at `now`, the creations whose wait has passed: each name is
    /// hosted from now on under its id, a node is started for it, the lookups
    /// and claims recorded meanwhile are told of it, and the request gets the id.
    pub fn handle_creatings(&mut self, now: u64) -> (r: Vec<Action>)
        requires
            old(self).wf(),
        ensures
            final(self).wf(),
            r@ == created_actions(old(self).creatings@, now),
            final(self).creatings@ == pending_creatings(old(self).creatings@, now),
            final(self).study_names@ == old(self).study_names@ + created_studies(old(self).creatings@, now),
            final(self).known == old(self).known,
            final(self).joinings == old(self).joinings,
            final(self).forget_queue == old(self).forget_queue,
    {
        let ghost h0 = self.study_names@;
        let mut rest = self.creatings.split_off(0);
        let ghost whole = rest@;
        assert(whole =~= old(self).creatings@);
        let n = rest.len();
        let mut i: usize = 0;
        let mut kept: Vec<Creating> = Vec::new();
        let mut out: Vec<Action> = Vec::new();
        while rest.len() > 0
            invariant
                n == whole.len(),
                whole == old(self).creatings@,
                i + rest@.len() == whole.len(),
                rest@ == whole.subrange(i as int, whole.len() as int),
                kept@ == pending_creatings(whole.subrange(0, i as int), now),
                out@ == created_actions(whole.subrange(0, i as int), now),
                self.study_names@ == h0 + created_studies(whole.subrange(0, i as int), now),
                self.creatings@.len() == 0,
                self.known == old(self).known,
                self.joinings == old(self).joinings,
                self.forget_queue == old(self).forget_queue,
            decreases rest@.len(),
        {
            let c = rest.remove(0);
            assert(whole[i as int] == c);
            assert(whole.subrange(0, i + 1).drop_last() =~= whole.subrange(0, i as int));
            if c.deadline <= now {
                let study = StudyNameAndId { study_name: c.name.duplicate(), study_id: c.study_id };
                self.study_names.push(study);
                let mut acts = resolve_creating(c);
                out.append(&mut acts);
            } else {
                kept.push(c);
            }
            i = i + 1;
            assert(rest@ =~= whole.subrange(i as int, whole.len() as int));
        }
        assert(whole.subrange(0, i as int) =~= whole);
        proof {
            lemma_resolve_apart(h0, self.known@, whole, now);
        }
        self.creatings = kept;
        out
    }

    /// The messages whose retention ends before `now`, for the overlay to forget.
    pub fn due_forgets(&mut self, now: u64) -> (r: Vec<MessageId>)
        ensures
            r@.len() <= old(self).forget_queue.entries@.len(),
            final(self).forget_queue.entries@ == old(self).forget_queue.entries@.subrange(r@.len() as int, old(self).forget_queue.entries@.len() as int),
            forall|i: int| 0 <= i < r@.len() ==> (#[trigger] r@[i]) == old(self).forget_queue.entries@[i].1,
            forall|i: int| 0 <= i < r@.len() ==> (#[trigger] old(self).forget_queue.entries@[i]).0 < now,
            r@.len() < old(self).forget_queue.entries@.len() ==> !(old(self).forget_queue.entries@[r@.len() as int].0 < now),
            *final(self) == (GlobalNode { forget_queue: final(self).forget_queue, ..*old(self) }),
    {
        let ghost q0 = self.forget_queue.entries@;
        let r = self.forget_queue.pop_due(now);
        assert(q0 == old(self).forget_queue.entries@);
        r
    }
}

/// What resolving creation `c` asks for: a node for the study, a notification
/// to each lookup recorded meanwhile, and the answer to the request.
pub open spec fn resolution_of(c: Creating) -> Seq<Action> {
    let study = StudyNameAndId { study_name: c.name, study_id: c.study_id };
    seq![Action::Spawn { study, contact: None }]
        + c.waitings@.map_values(|w: MessageId| Action::Notify { to: w, study, contact: Contact::HostedStudy })
        + seq![Action::ReplyCreate { ticket: c.ticket, result: Ok(c.study_id) }]
}

fn resolve_creating(c: Creating) -> (r: Vec<Action>)
    ensures
        r@ == resolution_of(c),
{
    let ghost c0 = c;
    let study = StudyNameAndId { study_name: c.name, study_id: c.study_id };
    let mut out: Vec<Action> = Vec::new();
    out.push(Action::Spawn { study: study.duplicate(), contact: None });
    let mut i: usize = 0;
    while i < c.waitings.len()
        invariant
            i <= c.waitings@.len(),
            c.waitings == c0.waitings,
            study == (StudyNameAndId { study_name: c0.name, study_id: c0.study_id }),
            out@ == seq![Action::Spawn { study, contact: None }] + c.waitings@.subrange(0, i as int).map_values(
                |w: MessageId| Action::Notify { to: w, study, contact: Contact::HostedStudy },
            ),
        decreases c.waitings@.len() - i,
    {
        out.push(Action::Notify { to: c.waitings[i], study: study.duplicate(), contact: Contact::HostedStudy });
        assert(c.waitings@.subrange(0, i + 1).map_values(|w: MessageId| Action::Notify { to: w, study, contact: Contact::HostedStudy })
            =~= c.waitings@.subrange(0, i as int).map_values(|w: MessageId| Action::Notify { to: w, study, contact: Contact::HostedStudy })
            .push(Action::Notify { to: c.waitings@[i as int], study, contact: Contact::HostedStudy }));
        i = i + 1;
    }
    assert(c.waitings@.subrange(0, i as int) =~= c.waitings@);
    out.push(Action::ReplyCreate { ticket: c.ticket, result: Ok(c.study_id) });
    out
}

/// The actions of the creations of `s` that resolve at `now`, in order.
pub open spec fn created_actions(s: Seq<Creating>, now: u64) -> Seq<Action>
    decreases s.len(),
{
    if s.len() == 0 {
        seq![]
    } else if s.last().deadline <= now {
        created_actions(s.drop_last(), now) + resolution_of(s.last())
    } else {
        created_actions(s.drop_last(), now)
    }
}

/// The creations of `s` still in flight after `now`, in order.
pub open spec fn pending_creatings(s: Seq<Creating>, now: u64) -> Seq<Creating>
    decreases s.len(),
{
    if s.len() == 0 {
        s
    } else if s.last().deadline <= now {
        pending_creatings(s.drop_last(), now)
    } else {
        pending_creatings(s.drop_last(), now).push(s.last())
    }
}

/// The studies that the creations of `s` resolving at `now` start, in order.
pub open spec fn created_studies(s: Seq<Creating>, now: u64) -> Seq<StudyNameAndId>
    decreases s.len(),
{
    if s.len() == 0 {
        seq![]
    } else if s.last().deadline <= now {
        created_studies(s.drop_last(), now).push(StudyNameAndId { study_name: s.last().name, study_id: s.last().study_id })
    } else {
        created_studies(s.drop_last(), now)
    }
}

/// Resolving creations keeps names and ids apart: the hosted list with the
/// created studies appended has distinct names and ids, and the creations
/// still in flight stay apart from it.
proof fn lemma_resolve_apart(h: Seq<StudyNameAndId>, k: Seq<StudyNameAndId>, s: Seq<Creating>, now: u64)
    requires
        study_names_distinct(h),
        ids_distinct(h),
        creating_names_distinct(s),
        forall|i: int, j: int| 0 <= i < j < s.len() ==> s[i].study_id != s[j].study_id,
        forall|i: int| 0 <= i < s.len() ==> creating_apart(#[trigger] s[i], h, k),
    ensures
        study_names_distinct(h + created_studies(s, now)),
        ids_distinct(h + created_studies(s, now)),
        creating_names_distinct(pending_creatings(s, now)),
        forall|i: int, j: int| 0 <= i < j < pending_creatings(s, now).len() ==>
            pending_creatings(s, now)[i].study_id != pending_creatings(s, now)[j].study_id,
        forall|i: int| 0 <= i < pending_creatings(s, now).len() ==>
            creating_apart(#[trigger] pending_creatings(s, now)[i], h + created_studies(s, now), k),
        forall|i: int| 0 <= i < created_studies(s, now).len() ==> exists|j: int| 0 <= j < s.len()
            && (#[trigger] created_studies(s, now)[i]).study_name == s[j].name && created_studies(s, now)[i].study_id == s[j].study_id,
        forall|i: int| 0 <= i < pending_creatings(s, now).len() ==> exists|j: int| 0 <= j < s.len() && s[j] == #[trigger] pending_creatings(s, now)[i],
        forall|i: int| 0 <= i < k.len() ==> (forall|j: int| 0 <= j < created_studies(s, now).len() ==>
            (#[trigger] created_studies(s, now)[j]).study_name@ != (#[trigger] k[i]).study_name@),
    decreases s.len(),
{
    if s.len() > 0 {
        let t = s.drop_last();
        assert forall|i: int| 0 <= i < t.len() implies t[i] == s[i] by {}
        assert(creating_names_distinct(t));
        lemma_resolve_apart(h, k, t, now);
        let c = s.last();
        let l = s.len() - 1;
        let ct = created_studies(t, now);
        let pt = pending_creatings(t, now);
        assert(creating_apart(s[l], h, k));
        // c differs in name and id from every earlier creation.
        assert forall|i: int| 0 <= i < ct.len() implies (#[trigger] ct[i]).study_name@ != c.name@ && ct[i].study_id != c.study_id by {
            let j = choose|j: int| 0 <= j < t.len() && ct[i].study_name == t[j].name && ct[i].study_id == t[j].study_id;
            assert(s[j] == t[j]);
        }
        assert forall|i: int| 0 <= i < pt.len() implies (#[trigger] pt[i]).name@ != c.name@ && pt[i].study_id != c.study_id by {
            let j = choose|j: int| 0 <= j < t.len() && t[j] == pt[i];
            assert(s[j] == t[j]);
        }
        if c.deadline <= now {
            let e = StudyNameAndId { study_name: c.name, study_id: c.study_id };
            let hc = h + ct;
            assert(h + created_studies(s, now) =~= hc.push(e));
            assert forall|i: int| 0 <= i < hc.len() implies (#[trigger] hc[i]).study_name@ != c.name@ && hc[i].study_id != c.study_id by {
                if i < h.len() {
                    assert(hc[i] == h[i]);
                } else {
                    assert(hc[i] == ct[i - h.len()]);
                }
            }
            assert forall|i: int| 0 <= i < pt.len() implies creating_apart(#[trigger] pt[i], hc.push(e), k) by {
                assert(creating_apart(pt[i], hc, k));
                let hp = hc.push(e);
                assert forall|j: int| 0 <= j < hp.len() implies (#[trigger] hp[j]).study_id != pt[i].study_id by {
                    if j < hc.len() {
                        assert(hp[j] == hc[j]);
                    }
                }
                if name_index(hp, pt[i].name@) is Some {
                    let j = choose|j: int| 0 <= j < hp.len() && hp[j].study_name@ == pt[i].name@;
                    if j < hc.len() {
                        assert(hp[j] == hc[j]);
                    }
                }
            }
            let cs = created_studies(s, now);
            assert forall|i: int| 0 <= i < cs.len() implies exists|j: int| 0 <= j < s.len()
                && (#[trigger] cs[i]).study_name == s[j].name && cs[i].study_id == s[j].study_id by {
                if i < ct.len() {
                    let j = choose|j: int| 0 <= j < t.len() && ct[i].study_name == t[j].name && ct[i].study_id == t[j].study_id;
                    assert(cs[i] == ct[i]);
                    assert(s[j] == t[j]);
                } else {
                    assert(cs[i] == e);
                }
            }
            assert forall|i: int| 0 <= i < k.len() implies (forall|j: int| 0 <= j < cs.len() ==>
                (#[trigger] cs[j]).study_name@ != (#[trigger] k[i]).study_name@) by {
                assert forall|j: int| 0 <= j < cs.len() implies (#[trigger] cs[j]).study_name@ != k[i].study_name@ by {
                    if j < ct.len() {
                        assert(cs[j] == ct[j]);
                    } else {
                        assert(name_index(k, c.name@) is None);
                        assert(k[i].study_name@ != c.name@) by {
                            if k[i].study_name@ == c.name@ {
                                assert(0 <= i < k.len() && k[i].study_name@ == c.name@);
                            }
                        }
                    }
                }
            }
        } else {
            let p = pending_creatings(s, now);
            assert(p =~= pt.push(c));
            assert forall|i: int| 0 <= i < p.len() implies exists|j: int| 0 <= j < s.len() && s[j] == #[trigger] p[i] by {
                if i < pt.len() {
                    let j = choose|j: int| 0 <= j < t.len() && t[j] == pt[i];
                    assert(s[j] == t[j]);
                } else {
                    assert(s[l] == p[i]);
                }
            }
            assert(created_studies(s, now) == ct);
            assert forall|i: int| 0 <= i < p.len() implies creating_apart(#[trigger] p[i], h + ct, k) by {
                if i < pt.len() {
                    assert(p[i] == pt[i]);
                } else {
                    let hc = h + ct;
                    assert forall|j: int| 0 <= j < hc.len() implies (#[trigger] hc[j]).study_id != c.study_id by {
                        if j < h.len() {
                            assert(hc[j] == h[j]);
                        } else {
                            assert(hc[j] == ct[j - h.len()]);
                        }
                    }
                    if name_index(hc, c.name@) is Some {
                        let j = choose|j: int| 0 <= j < hc.len() && hc[j].study_name@ == c.name@;
                        if j < h.len() {
                            assert(hc[j] == h[j]);
                        } else {
                            assert(hc[j] == ct[j - h.len()]);
                        }
                    }
                }
            }
        }
    }
}

proof fn lemma_pending_distinct(s: Seq<Creating>, now: u64)
    requires
        creating_names_distinct(s),
    ensures
        creating_names_distinct(pending_creatings(s, now)),
        forall|i: int| 0 <= i < pending_creatings(s, now).len() ==> exists|j: int| 0 <= j < s.len() && s[j] == #[trigger] pending_creatings(s, now)[i],
    decreases s.len(),
{
    if s.len() > 0 {
        let t = s.drop_last();
        assert(creating_names_distinct(t)) by {
            assert forall|a: int, b: int| 0 <= a < b < t.len() implies t[a].name@ != t[b].name@ by {
                assert(t[a] == s[a] && t[b] == s[b]);
            }
        }
        lemma_pending_distinct(t, now);
        let p = pending_creatings(t, now);
        assert forall|i: int| 0 <= i < p.len() implies exists|j: int| 0 <= j < s.len() && s[j] == #[trigger] p[i] by {
            let j = choose|j: int| 0 <= j < t.len() && t[j] == p[i];
            assert(s[j] == t[j]);
        }
        if !(s.last().deadline <= now) {
            let q = p.push(s.last());
            assert forall|a: int, b: int| 0 <= a < b < q.len() implies q[a].name@ != q[b].name@ by {
                if b == q.len() - 1 {
                    assert(q[a] == p[a]);
                    let j = choose|j: int| 0 <= j < t.len() && t[j] == p[a];
                    assert(s[j] == t[j]);
                    assert(s[j].name@ != s[s.len() - 1].name@);
                } else {
                    assert(q[a] == p[a] && q[b] == p[b]);
                }
            }
            assert forall|i: int| 0 <= i < q.len() implies exists|j: int| 0 <= j < s.len() && s[j] == #[trigger] q[i] by {
                if i == q.len() - 1 {
                    assert(s[s.len() - 1] == q[i]);
                } else {
                    assert(q[i] == p[i]);
                    let j = choose|j: int| 0 <= j < s.len() && s[j] == p[i];
                }
            }
        }
    }
}

/// The lookups of `s` that give up at `now`, each answered with `NotFound`.
pub open spec fn expired_joins(s: Seq<Joining>, now: u64) -> Seq<Action>
    decreases s.len(),
{
    if s.len() == 0 {
        seq![]
    } else if s.last().deadline <= now {
        expired_joins(s.drop_last(), now).push(Action::ReplyJoin { ticket: s.last().ticket, result: Err(ErrorKind::NotFound) })
    } else {
        expired_joins(s.drop_last(), now)
    }
}

/// The lookups of `s` still in flight after `now`, in order.
pub open spec fn pending_joins(s: Seq<Joining>, now: u64) -> Seq<Joining>
    decreases s.len(),
{
    if s.len() == 0 {
        s
    } else if s.last().deadline <= now {
        pending_joins(s.drop_last(), now)
    } else {
        pending_joins(s.drop_last(), now).push(s.last())
    }
}

/// Whether a lookup of `name` is among `s`.
pub open spec fn joins_waiting(s: Seq<Joining>, name: Seq<char>) -> bool
    decreases s.len(),
{
    if s.len() == 0 {
        false
    } else {
        joins_waiting(s.drop_last(), name) || s.last().name@ == name
    }
}

/// A lookup found at position `k - 1` is among the lookups.
proof fn lemma_joins_waiting_prefix(s: Seq<Joining>, k: int)
    requires
        0 < k <= s.len(),
    ensures
        joins_waiting(s, s[k - 1].name@),
{
    let name = s[k - 1].name@;
    assert(s.subrange(0, k).drop_last() =~= s.subrange(0, k - 1));
    if k < s.len() {
        assert(s.subrange(0, k + 1).drop_last() =~= s.subrange(0, k));
        lemma_joins_waiting_extend(s, k + 1, name);
    } else {
        assert(s.subrange(0, k) =~= s);
    }
}

proof fn lemma_joins_waiting_extend(s: Seq<Joining>, k: int, name: Seq<char>)
    requires
        0 < k <= s.len(),
        joins_waiting(s.subrange(0, k - 1), name),
    ensures
        joins_waiting(s, name),
    decreases s.len() - k,
{
    assert(s.subrange(0, k).drop_last() =~= s.subrange(0, k - 1));
    if k < s.len() {
        lemma_joins_waiting_extend(s, k + 1, name);
    } else {
        assert(s.subrange(0, k) =~= s);
    }
}

/// The lookups of `s` other than those of `name`, in order.
pub open spec fn joinings_without(s: Seq<Joining>, name: Seq<char>) -> Seq<Joining>
    decreases s.len(),
{
    if s.len() == 0 {
        s
    } else if s.last().name@ == name {
        joinings_without(s.drop_last(), name)
    } else {
        joinings_without(s.drop_last(), name).push(s.last())
    }
}

/// The answers, with `id`, to the lookups of `name` among `s`.
pub open spec fn join_replies(s: Seq<Joining>, name: Seq<char>, id: StudyId) -> Seq<Action>
    decreases s.len(),
{
    if s.len() == 0 {
        seq![]
    } else if s.last().name@ == name {
        join_replies(s.drop_last(), name, id).push(Action::ReplyJoin { ticket: s.last().ticket, result: Ok(id) })
    } else {
        join_replies(s.drop_last(), name, id)
    }
}

/// The creations of `s` other than that of `name`.
pub open spec fn creatings_without(s: Seq<Creating>, name: Seq<char>) -> Seq<Creating> {
    match creating_index(s, name) {
        Some(i) => s.remove(i),
        None => s,
    }
}

/// The known studies of `k` other than that of `name`.
pub open spec fn known_without(k: Seq<StudyNameAndId>, name: Seq<char>) -> Seq<StudyNameAndId> {
    match name_index(k, name) {
        Some(i) => k.remove(i),
        None => k,
    }
}

proof fn lemma_creating_removed_apart(s: Seq<Creating>, h: Seq<StudyNameAndId>, k: Seq<StudyNameAndId>, i: int)
    requires
        0 <= i < s.len(),
        forall|j: int| 0 <= j < s.len() ==> creating_apart(#[trigger] s[j], h, k),
        forall|a: int, b: int| 0 <= a < b < s.len() ==> s[a].study_id != s[b].study_id,
    ensures
        forall|j: int| 0 <= j < s.remove(i).len() ==> creating_apart(#[trigger] s.remove(i)[j], h, k),
        forall|a: int, b: int| 0 <= a < b < s.remove(i).len() ==> s.remove(i)[a].study_id != s.remove(i)[b].study_id,
{
    let t = s.remove(i);
    assert forall|j: int| 0 <= j < t.len() implies creating_apart(#[trigger] t[j], h, k) by {
        let x = if j < i { j } else { j + 1 };
        assert(t[j] == s[x]);
    }
    assert forall|a: int, b: int| 0 <= a < b < t.len() implies t[a].study_id != t[b].study_id by {
        let a0 = if a < i { a } else { a + 1 };
        let b0 = if b < i { b } else { b + 1 };
        assert(t[a] == s[a0] && t[b] == s[b0]);
    }
}

/// The answer to the creation in flight of a name that a peer reports.
pub open spec fn on_notified(s: Seq<Creating>, name: Seq<char>) -> Seq<Action> {
    match creating_index(s, name) {
        Some(i) => seq![Action::ReplyCreate { ticket: s[i].ticket, result: Err(ErrorKind::AlreadyExists) }],
        None => seq![],
    }
}

/// Whether a creation of `name` is refused: the name is being created or is
/// hosted here.
pub open spec fn create_refused(g: GlobalNode, name: Seq<char>) -> bool {
    ||| creating_index(g.creatings@, name) is Some
    ||| name_index(g.study_names@, name) is Some
}

/// The answer to a peer's claim of `name` under `id` while a creation of that
/// name may be in flight here.
pub open spec fn on_create_claim(s: Seq<Creating>, mid: MessageId, name: StudyName, id: StudyId) -> Seq<Action> {
    match creating_index(s, name@) {
        None => seq![],
        Some(i) => if s[i].study_id == id {
            seq![]
        } else if s[i].study_id.0 < id.0 {
            seq![Action::Notify {
                to: mid,
                study: StudyNameAndId { study_name: name, study_id: s[i].study_id },
                contact: Contact::ClusterNode,
            }]
        } else {
            seq![Action::ReplyCreate { ticket: s[i].ticket, result: Err(ErrorKind::AlreadyExists) }]
        },
    }
}

/// Whether a peer's claim of `name` under `id` overturns the creation of that
/// name in flight here: the peer's id is the smaller.
pub open spec fn claim_wins(s: Seq<Creating>, name: Seq<char>, id: StudyId) -> bool {
    match creating_index(s, name) {
        Some(i) => s[i].study_id != id && !(s[i].study_id.0 < id.0),
        None => false,
    }
}

/// The creations in flight after a peer's claim of `name` under `id`: a local
/// creation with a larger id is abandoned.
pub open spec fn creatings_after_claim(s: Seq<Creating>, name: Seq<char>, id: StudyId) -> Seq<Creating> {
    match creating_index(s, name) {
        Some(i) => if s[i].study_id != id && !(s[i].study_id.0 < id.0) {
            s.remove(i)
        } else {
            s
        },
        None => s,
    }
}

/// The answer to a peer's claim of `name` under `id` when this peer may host
/// a study of that name.
pub open spec fn on_hosted_claim(h: Seq<StudyNameAndId>, mid: MessageId, name: StudyName, id: StudyId) -> Seq<Action> {
    match name_index(h, name@) {
        Some(j) => if h[j].study_id != id {
            seq![Action::Notify { to: mid, study: h[j], contact: Contact::HostedStudy }]
        } else {
            seq![]
        },
        None => seq![],
    }
}

/// The answer to a peer's lookup of `name`.
pub open spec fn on_lookup(h: Seq<StudyNameAndId>, mid: MessageId, name: StudyName) -> Seq<Action> {
    match name_index(h, name@) {
        Some(j) => seq![Action::Notify { to: mid, study: h[j], contact: Contact::HostedStudy }],
        None => seq![],
    }
}

/// The creations in flight after a peer's lookup of `name`: a creation of that
/// name records the lookup, unless the name is hosted here.
pub open spec fn lookup_recorded(s: Seq<Creating>, t: Seq<Creating>, h: Seq<StudyNameAndId>, mid: MessageId, name: Seq<char>) -> bool {
    if name_index(h, name) is Some || creating_index(s, name) is None {
        t == s
    } else {
        let i = creating_index(s, name)->0;
        &&& t.len() == s.len()
        &&& forall|j: int| 0 <= j < s.len() && j != i ==> t[j] == s[j]
        &&& t[i].name == s[i].name
        &&& t[i].study_id == s[i].study_id
        &&& t[i].deadline == s[i].deadline
        &&& t[i].ticket == s[i].ticket
        &&& t[i].waitings@ == s[i].waitings@.push(mid)
    }
}

proof fn lemma_creatings_remove(s: Seq<Creating>, i: int)
    requires
        creating_names_distinct(s),
        0 <= i < s.len(),
    ensures
        creating_names_distinct(s.remove(i)),
{
    let t = s.remove(i);
    assert forall|a: int, b: int| 0 <= a < b < t.len() implies t[a].name@ != t[b].name@ by {
        let a0 = if a < i { a } else { a + 1 };
        let b0 = if b < i { b } else { b + 1 };
        assert(t[a] == s[a0] && t[b] == s[b0]);
    }
}

proof fn lemma_creatings_update(s: Seq<Creating>, i: int, c: Creating)
    requires
        creating_names_distinct(s),
        0 <= i < s.len(),
        c.name@ == s[i].name@,
    ensures
        creating_names_distinct(s.update(i, c)),
{
    let t = s.update(i, c);
    assert forall|a: int, b: int| 0 <= a < b < t.len() implies t[a].name@ != t[b].name@ by {
        assert(t[a].name@ == s[a].name@ && t[b].name@ == s[b].name@);
    }
}

proof fn lemma_created_contains(s: Seq<Creating>, now: u64, i: int)
    requires
        0 <= i < s.len(),
        s[i].deadline <= now,
    ensures
        created_studies(s, now).contains(StudyNameAndId { study_name: s[i].name, study_id: s[i].study_id }),
    decreases s.len(),
{
    let e = StudyNameAndId { study_name: s[i].name, study_id: s[i].study_id };
    if i < s.len() - 1 {
        lemma_created_contains(s.drop_last(), now, i);
        let p = created_studies(s.drop_last(), now);
        let k = choose|k: int| 0 <= k < p.len() && p[k] == e;
        if s.last().deadline <= now {
            assert(p.push(StudyNameAndId { study_name: s.last().name, study_id: s.last().study_id })[k] == e);
        }
    } else {
        let p = created_studies(s.drop_last(), now);
        assert(p.push(e)[p.len() as int] == e);
    }
}

proof fn lemma_created_reply(s: Seq<Creating>, now: u64, i: int)
    requires
        0 <= i < s.len(),
        s[i].deadline <= now,
    ensures
        created_actions(s, now).contains(Action::ReplyCreate { ticket: s[i].ticket, result: Ok(s[i].study_id) }),
    decreases s.len(),
{
    let l = s.len() - 1;
    let a = Action::ReplyCreate { ticket: s[i].ticket, result: Ok(s[i].study_id) };
    if i < l {
        lemma_created_reply(s.drop_last(), now, i);
        let p = created_actions(s.drop_last(), now);
        let k = choose|k: int| 0 <= k < p.len() && p[k] == a;
        if s.last().deadline <= now {
            assert((p + resolution_of(s.last()))[k] == a);
        }
    } else {
        let r = resolution_of(s[i]);
        assert(r[r.len() - 1] == a);
        let p = created_actions(s.drop_last(), now);
        assert((p + r)[p.len() + r.len() - 1] == a);
    }
}

/// A creation that no peer's claim overturned resolves, at its deadline, to
/// its own id: the request is answered with that id, and from then on the
/// name resolves to it among the hosted studies, which is what a later lookup
/// of the name answers (see `join_study`); the list of studies (hosted, then
/// known) holds the name once.
pub proof fn lemma_create_then_get(g: GlobalNode, now: u64, i: int)
    requires
        g.wf(),
        0 <= i < g.creatings@.len(),
        g.creatings@[i].deadline <= now,
    ensures
        created_actions(g.creatings@, now).contains(
            Action::ReplyCreate { ticket: g.creatings@[i].ticket, result: Ok(g.creatings@[i].study_id) },
        ),
        ({
            let hosted = g.study_names@ + created_studies(g.creatings@, now);
            &&& name_index(hosted, g.creatings@[i].name@) is Some
            &&& hosted[name_index(hosted, g.creatings@[i].name@)->0].study_id == g.creatings@[i].study_id
            &&& forall|j: int| 0 <= j < (hosted + g.known@).len() && (#[trigger] (hosted + g.known@)[j]).study_name@
                == g.creatings@[i].name@ ==> j == name_index(hosted, g.creatings@[i].name@)->0
        }),
{
    let s = g.creatings@;
    let h = g.study_names@;
    lemma_resolve_apart(h, g.known@, s, now);
    lemma_created_reply(s, now, i);
    lemma_created_contains(s, now, i);
    let cs = created_studies(s, now);
    let e = StudyNameAndId { study_name: s[i].name, study_id: s[i].study_id };
    let k = choose|k: int| 0 <= k < cs.len() && cs[k] == e;
    let hosted = h + cs;
    assert(hosted[h.len() + k] == e);
    lemma_name_index(hosted, h.len() + k);
    let all = hosted + g.known@;
    assert(creating_apart(s[i], h, g.known@));
    assert forall|j: int| 0 <= j < all.len() && (#[trigger] all[j]).study_name@ == s[i].name@ implies
        j == name_index(hosted, s[i].name@)->0 by {
        if j < hosted.len() {
            assert(all[j] == hosted[j]);
            lemma_name_index(hosted, j);
        } else {
            assert(all[j] == g.known@[j - hosted.len()]);
            assert(0 <= j - hosted.len() < g.known@.len() && g.known@[j - hosted.len()].study_name@ == s[i].name@);
        }
    }
}

} // verus!
