use vstd::prelude::*;

verus! {

/// The name of a study: any string, unique across the cluster by intent only.
#[derive(Clone, Debug)]
pub struct StudyName(pub String);

impl View for StudyName {
    type V = Seq<char>;

    open spec fn view(&self) -> Seq<char> {
        self.0@
    }
}

impl StudyName {
    pub fn new(name: String) -> (r: StudyName)
        ensures
            r@ == name@,
    {
        StudyName(name)
    }

    pub fn as_str(&self) -> (r: &str)
        ensures
            r@ == self@,
    {
        self.0.as_str()
    }

    /// A copy of this name.
    pub fn duplicate(&self) -> (r: StudyName)
        ensures
            r == *self,
    {
        StudyName(self.0.clone())
    }

    /// Whether two names are the same string.
    pub fn same(&self, other: &StudyName) -> (r: bool)
        ensures
            r == (self@ == other@),
    {
        self.0 == other.0
    }
}

/// Whether a 128-bit value has the version and variant bits of a random
/// (version 4, RFC 9562 variant) UUID.
pub open spec fn is_v4(u: u128) -> bool {
    (u >> 76u128) & 0xfu128 == 4u128 && (u >> 62u128) & 0x3u128 == 2u128
}

/// Relies on uuid::Uuid::new_v4: a fresh random UUID, read as its 128-bit
/// value, whose version and variant bits are set to those of version 4.
#[verifier::external_body]
fn random_uuid() -> (r: u128)
    ensures
        is_v4(r),
{
    uuid::Uuid::new_v4().as_u128()
}

/// What uuid::Uuid::parse_str accepts from a string, as a 128-bit value.
pub uninterp spec fn uuid_parse_of(s: Seq<char>) -> Option<u128>;

/// The lowercase hexadecimal digit of `d`, below 16.
pub open spec fn hex_char(d: int) -> char {
    seq!['0', '1', '2', '3', '4', '5', '6', '7', '8', '9', 'a', 'b', 'c', 'd', 'e', 'f'][d]
}

/// Hexadecimal digit `i` of `u`, counting from the most significant of 32.
pub open spec fn nibble(u: u128, i: int) -> int {
    (u as nat / vstd::arithmetic::power2::pow2((124 - 4 * i) as nat)) as int % 16
}

/// The position among the 32 digits of character `k` of the hyphenated form.
pub open spec fn digit_at(k: int) -> int {
    if k < 8 {
        k
    } else if k < 13 {
        k - 1
    } else if k < 18 {
        k - 2
    } else if k < 23 {
        k - 3
    } else {
        k - 4
    }
}

/// The hyphenated form of a UUID: its 32 lowercase hexadecimal digits, most
/// significant first, with hyphens at positions 8, 13, 18 and 23.
pub open spec fn uuid_text_of(u: u128) -> Seq<char> {
    Seq::new(
        36,
        |k: int|
            if k == 8 || k == 13 || k == 18 || k == 23 {
                '-'
            } else {
                hex_char(nibble(u, digit_at(k)))
            },
    )
}

/// Relies on uuid::Uuid::parse_str: the UUID that a string denotes, if any;
/// the empty string denotes none.
#[verifier::external_body]
fn parse_uuid(s: &str) -> (r: Option<u128>)
    ensures
        r == uuid_parse_of(s@),
        s@.len() == 0 ==> r is None,
{
    uuid::Uuid::parse_str(s).ok().map(|u| u.as_u128())
}

/// Relies on uuid::Uuid's `Display`: the hyphenated lowercase form (36
/// characters of hex digits and hyphens, so no '.'), which
/// uuid::Uuid::parse_str reads back.
#[verifier::external_body]
fn uuid_text(u: u128) -> (r: String)
    ensures
        r@ == uuid_text_of(u),
        r@.len() == 36,
        forall|i: int| 0 <= i < r@.len() ==> r@[i] != '.',
        uuid_parse_of(r@) == Some(u),
{
    uuid::Uuid::from_u128(u).to_string()
}

/// The globally unique identifier of a study, a 128-bit UUID.
#[derive(Clone, Copy, Debug, PartialEq, Eq, Hash, Structural)]
pub struct StudyId(pub u128);

impl StudyId {
    /// A fresh random identifier: a version-4 UUID.
    pub fn new() -> (r: StudyId)
        ensures
            is_v4(r.0),
    {
        StudyId(random_uuid())
    }

    pub fn from_u128(u: u128) -> (r: StudyId)
        ensures
            r.0 == u,
    {
        StudyId(u)
    }

    /// The UUID, as its 128-bit value.
    pub fn as_uuid(&self) -> (r: u128)
        ensures
            r == self.0,
    {
        self.0
    }

    /// The canonical (hyphenated UUID) text of this id.
    pub fn to_text(&self) -> (r: String)
        ensures
            r@ == uuid_text_of(self.0),
            uuid_parse_of(r@) == Some(self.0),
    {
        uuid_text(self.0)
    }

    /// Reads an id from its UUID text.
    pub fn parse(s: &str) -> (r: Option<StudyId>)
        ensures
            r == (match uuid_parse_of(s@) {
                Some(u) => Some(StudyId(u)),
                None => None,
            }),
    {
        match parse_uuid(s) {
            Some(u) => Some(StudyId(u)),
            None => None,
        }
    }
}

/// A study's name together with the id it resolved to.
#[derive(Clone, Debug)]
pub struct StudyNameAndId {
    pub study_name: StudyName,
    pub study_id: StudyId,
}

impl StudyNameAndId {
    pub fn duplicate(&self) -> (r: StudyNameAndId)
        ensures
            r == *self,
    {
        StudyNameAndId { study_name: self.study_name.duplicate(), study_id: self.study_id }
    }
}

/// Which way a study optimizes its objective.
#[derive(Clone, Copy, Debug, PartialEq, Eq, Hash, Structural)]
pub enum StudyDirection {
    NotSet,
    Minimize,
    Maximize,
}

/// The lifecycle state of a trial.
#[derive(Clone, Copy, Debug, PartialEq, Eq, Hash, Structural)]
pub enum TrialState {
    Running,
    Complete,
    Pruned,
    Fail,
}

/// A gossip node, by its socket address (the IP address as an IPv6 value, with
/// IPv4 mapped in, and the port) and its local id on that address.
#[derive(Clone, Copy, Debug, PartialEq, Eq, Hash, Structural)]
pub struct NodeRef {
    pub host: u128,
    pub port: u16,
    pub local_id: u64,
}

/// A gossip message, by the node it came from and that node's sequence number.
#[derive(Clone, Copy, Debug, PartialEq, Eq, Hash, Structural)]
pub struct MessageId {
    pub origin: NodeRef,
    pub seq: u64,
}

/// The total order of message ids: by host, port, local id, then sequence.
pub open spec fn mid_lt(a: MessageId, b: MessageId) -> bool {
    if a.origin.host != b.origin.host {
        a.origin.host < b.origin.host
    } else if a.origin.port != b.origin.port {
        a.origin.port < b.origin.port
    } else if a.origin.local_id != b.origin.local_id {
        a.origin.local_id < b.origin.local_id
    } else {
        a.seq < b.seq
    }
}

impl MessageId {
    pub fn lt(&self, other: &MessageId) -> (r: bool)
        ensures
            r == mid_lt(*self, *other),
    {
        if self.origin.host != other.origin.host {
            self.origin.host < other.origin.host
        } else if self.origin.port != other.origin.port {
            self.origin.port < other.origin.port
        } else if self.origin.local_id != other.origin.local_id {
            self.origin.local_id < other.origin.local_id
        } else {
            self.seq < other.seq
        }
    }
}

/// The id of a trial: the study it belongs to and a UUID of its own.
/// Its text is `"<study uuid>.<trial uuid>"`.
#[derive(Clone, Copy, Debug, PartialEq, Eq, Hash, Structural)]
pub struct TrialId {
    pub study: StudyId,
    pub local: u128,
}

/// The index of the first '.' in `s`, if there is one.
pub open spec fn first_dot(s: Seq<char>) -> Option<int> {
    if exists|i: int| 0 <= i < s.len() && s[i] == '.' {
        Some(choose|i: int| 0 <= i < s.len() && s[i] == '.' && (forall|j: int| 0 <= j < i ==> s[j] != '.'))
    } else {
        None
    }
}

/// What the text of a trial id denotes: the study UUID before the first '.',
/// the trial UUID after it.
pub open spec fn trial_id_of_text(s: Seq<char>) -> Option<TrialId> {
    match first_dot(s) {
        None => None,
        Some(i) => match (uuid_parse_of(s.subrange(0, i)), uuid_parse_of(s.subrange(i + 1, s.len() as int))) {
            (Some(a), Some(b)) => Some(TrialId { study: StudyId(a), local: b }),
            _ => None,
        },
    }
}

pub open spec fn trial_id_text_spec(t: TrialId) -> Seq<char> {
    uuid_text_of(t.study.0) + seq!['.'] + uuid_text_of(t.local)
}

proof fn lemma_first_dot_found(s: Seq<char>, i: int)
    requires
        0 <= i < s.len(),
        s[i] == '.',
        forall|j: int| 0 <= j < i ==> s[j] != '.',
    ensures
        first_dot(s) == Some(i),
{
    let k = choose|k: int| 0 <= k < s.len() && s[k] == '.' && (forall|j: int| 0 <= j < k ==> s[j] != '.');
    if k < i {
        assert(s[k] != '.');
    } else if k > i {
        assert(s[i] != '.');
    }
}

impl TrialId {
    pub fn new(study: StudyId, local: u128) -> (r: TrialId)
        ensures
            r.study == study,
            r.local == local,
    {
        TrialId { study, local }
    }

    /// A fresh trial id within `study`, its own part a version-4 UUID.
    pub fn random(study: StudyId) -> (r: TrialId)
        ensures
            r.study == study,
            is_v4(r.local),
    {
        TrialId { study, local: random_uuid() }
    }

    /// The study this trial belongs to.
    pub fn get_study_id(&self) -> (r: StudyId)
        ensures
            r == self.study,
    {
        self.study
    }

    /// The text `"<study uuid>.<trial uuid>"`.
    pub fn to_text(&self) -> (r: String)
        ensures
            r@ == trial_id_text_spec(*self),
            trial_id_of_text(r@) == Some(*self),
    {
        let a = uuid_text(self.study.0);
        let b = uuid_text(self.local);
        let mut s = a;
        s.append(".");
        s.append(b.as_str());
        proof {
            reveal_strlit(".");
            lemma_trial_id_text_round_trip(*self);
        }
        assert(s@ == trial_id_text_spec(*self));
        assert(trial_id_of_text(trial_id_text_spec(*self)) == Some(*self));
        s
    }

    /// Reads a trial id from its text.
    pub fn parse(s: &str) -> (r: Option<TrialId>)
        ensures
            r == trial_id_of_text(s@),
    {
        let n = s.unicode_len();
        let mut i: usize = 0;
        while i < n
            invariant
                n == s@.len(),
                i <= n,
                forall|j: int| 0 <= j < i ==> s@[j] != '.',
            decreases n - i,
        {
            if s.get_char(i) == '.' {
                proof {
                    lemma_first_dot_found(s@, i as int);
                }
                let a = parse_uuid(s.substring_char(0, i));
                let b = parse_uuid(s.substring_char(i + 1, n));
                return match (a, b) {
                    (Some(a), Some(b)) => Some(TrialId { study: StudyId(a), local: b }),
                    _ => None,
                };
            }
            i = i + 1;
        }
        None
    }
}

/// Reading back the text of a trial id gives the same id.
pub proof fn lemma_trial_id_text_round_trip(t: TrialId)
    requires
        uuid_text_of(t.study.0).len() == 36,
        forall|i: int| 0 <= i < uuid_text_of(t.study.0).len() ==> uuid_text_of(t.study.0)[i] != '.',
        uuid_parse_of(uuid_text_of(t.study.0)) == Some(t.study.0),
        uuid_parse_of(uuid_text_of(t.local)) == Some(t.local),
    ensures
        trial_id_of_text(trial_id_text_spec(t)) == Some(t),
{
    let a = uuid_text_of(t.study.0);
    let b = uuid_text_of(t.local);
    let s = trial_id_text_spec(t);
    assert(s[36] == '.');
    assert forall|j: int| 0 <= j < 36 implies s[j] != '.' by {
        assert(s[j] == a[j]);
    }
    lemma_first_dot_found(s, 36);
    assert(s.subrange(0, 36) =~= a);
    assert(s.subrange(37, s.len() as int) =~= b);
}

} // verus!
