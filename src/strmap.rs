use vstd::prelude::*;

verus! {

/// Values that can be copied, the copy equal to the source value.
pub trait Duplicate: Sized {
    fn duplicate(&self) -> (r: Self)
        ensures
            r == *self,
    ;
}

impl Duplicate for String {
    fn duplicate(&self) -> (r: String) {
        self.clone()
    }
}

impl Duplicate for u64 {
    fn duplicate(&self) -> (r: u64) {
        *self
    }
}

/// A mapping from string keys to values, keys kept distinct, entries in the
/// order in which their keys first came.
#[derive(Debug)]
pub struct StrMap<V> {
    pub entries: Vec<(String, V)>,
}

/// The mapping that a list of distinct-keyed entries denotes.
pub open spec fn entries_map<V>(s: Seq<(String, V)>) -> Map<Seq<char>, V>
    decreases s.len(),
{
    if s.len() == 0 {
        Map::empty()
    } else {
        entries_map(s.drop_last()).insert(s.last().0@, s.last().1)
    }
}

pub open spec fn keys_distinct<V>(s: Seq<(String, V)>) -> bool {
    forall|i: int, j: int| 0 <= i < j < s.len() ==> s[i].0@ != s[j].0@
}

proof fn lemma_entries_map_index<V>(s: Seq<(String, V)>)
    requires
        keys_distinct(s),
    ensures
        forall|i: int| 0 <= i < s.len() ==> #[trigger] entries_map(s).contains_key(s[i].0@) && entries_map(s)[s[i].0@] == s[i].1,
        forall|k: Seq<char>| #[trigger] entries_map(s).contains_key(k) ==> exists|i: int| 0 <= i < s.len() && s[i].0@ == k,
    decreases s.len(),
{
    if s.len() > 0 {
        let t = s.drop_last();
        assert(keys_distinct(t)) by {
            assert forall|i: int, j: int| 0 <= i < j < t.len() implies t[i].0@ != t[j].0@ by {
                assert(t[i] == s[i] && t[j] == s[j]);
            }
        }
        lemma_entries_map_index(t);
        let m = entries_map(s);
        assert forall|i: int| 0 <= i < s.len() implies #[trigger] m.contains_key(s[i].0@) && m[s[i].0@] == s[i].1 by {
            if i < s.len() - 1 {
                assert(t[i] == s[i]);
                assert(entries_map(t).contains_key(t[i].0@));
                assert(s[i].0@ != s[s.len() - 1].0@);
            }
        }
        assert forall|k: Seq<char>| #[trigger] m.contains_key(k) implies exists|i: int| 0 <= i < s.len() && s[i].0@ == k by {
            if k != s.last().0@ {
                assert(entries_map(s.drop_last()).contains_key(k));
                let i = choose|i: int| 0 <= i < s.drop_last().len() && s.drop_last()[i].0@ == k;
                assert(s[i] == s.drop_last()[i]);
            } else {
                assert(s[s.len() - 1].0@ == k);
            }
        }
    }
}

proof fn lemma_entries_map_update<V>(s: Seq<(String, V)>, i: int, e: (String, V))
    requires
        keys_distinct(s),
        0 <= i < s.len(),
        s[i].0@ == e.0@,
    ensures
        keys_distinct(s.update(i, e)),
        entries_map(s.update(i, e)) == entries_map(s).insert(e.0@, e.1),
{
    let t = s.update(i, e);
    lemma_entries_map_index(s);
    lemma_entries_map_index(t);
    let a = entries_map(t);
    let b = entries_map(s).insert(e.0@, e.1);
    assert forall|k: Seq<char>| a.contains_key(k) <==> b.contains_key(k) by {
        if a.contains_key(k) {
            let j = choose|j: int| 0 <= j < t.len() && t[j].0@ == k;
            if j != i {
                assert(entries_map(s).contains_key(s[j].0@));
            }
        }
        if b.contains_key(k) && k != e.0@ {
            let j = choose|j: int| 0 <= j < s.len() && s[j].0@ == k;
            assert(t[j].0@ == k);
            assert(a.contains_key(t[j].0@));
        }
        if k == e.0@ {
            assert(a.contains_key(t[i].0@));
        }
    }
    assert forall|k: Seq<char>| a.contains_key(k) implies a[k] == b[k] by {
        let j = choose|j: int| 0 <= j < t.len() && t[j].0@ == k;
        if j != i {
            assert(s[j] == t[j]);
            assert(entries_map(s)[s[j].0@] == s[j].1);
        }
    }
    assert(a =~= b);
}

impl<V> View for StrMap<V> {
    type V = Map<Seq<char>, V>;

    open spec fn view(&self) -> Map<Seq<char>, V> {
        entries_map(self.entries@)
    }
}

impl<V> StrMap<V> {
    pub open spec fn wf(&self) -> bool {
        keys_distinct(self.entries@)
    }

    /// The entries, in order.
    pub open spec fn items(&self) -> Seq<(String, V)> {
        self.entries@
    }

    pub fn new() -> (r: StrMap<V>)
        ensures
            r.wf(),
            r@ == Map::<Seq<char>, V>::empty(),
    {
        StrMap { entries: Vec::new() }
    }

    pub fn len(&self) -> (r: usize)
        requires
            self.wf(),
        ensures
            r == self@.len(),
            r == self.items().len(),
    {
        proof {
            self.lemma_len();
        }
        self.entries.len()
    }

    proof fn lemma_len(&self)
        requires
            self.wf(),
        ensures
            self@.len() == self.entries@.len(),
            self@.dom().finite(),
    {
        lemma_len_of(self.entries@);
    }

    /// The entry at position `i`.
    pub fn entry(&self, i: usize) -> (r: &(String, V))
        requires
            i < self.items().len(),
        ensures
            *r == self.items()[i as int],
    {
        &self.entries[i]
    }

    /// The position of `key`, if present.
    fn find(&self, key: &String) -> (r: Option<usize>)
        requires
            self.wf(),
        ensures
            match r {
                Some(i) => i < self.entries@.len() && self.entries@[i as int].0@ == key@,
                None => !self@.contains_key(key@),
            },
    {
        proof {
            lemma_entries_map_index(self.entries@);
        }
        let mut i: usize = 0;
        while i < self.entries.len()
            invariant
                i <= self.entries@.len(),
                forall|j: int| 0 <= j < i ==> self.entries@[j].0@ != key@,
            decreases self.entries@.len() - i,
        {
            if self.entries[i].0 == *key {
                return Some(i);
            }
            i = i + 1;
        }
        None
    }

    /// The value under `key`, if any.
    pub fn get(&self, key: &String) -> (r: Option<&V>)
        requires
            self.wf(),
        ensures
            match r {
                Some(v) => self@.contains_key(key@) && self@[key@] == *v,
                None => !self@.contains_key(key@),
            },
    {
        proof {
            lemma_entries_map_index(self.entries@);
        }
        match self.find(key) {
            Some(i) => {
                assert(self@.contains_key(self.entries@[i as int].0@));
                Some(&self.entries[i].1)
            },
            None => None,
        }
    }

    /// Sets `key` to `value`, replacing what was there.
    pub fn insert(&mut self, key: String, value: V)
        requires
            old(self).wf(),
        ensures
            final(self).wf(),
            final(self)@ == old(self)@.insert(key@, value),
    {
        match self.find(&key) {
            Some(i) => {
                proof {
                    lemma_entries_map_update(self.entries@, i as int, (key, value));
                }
                self.entries.set(i, (key, value));
            },
            None => {
                let ghost s = self.entries@;
                proof {
                    lemma_entries_map_index(s);
                    assert forall|j: int| 0 <= j < s.len() implies s[j].0@ != key@ by {
                        assert(entries_map(s).contains_key(s[j].0@));
                    }
                }
                self.entries.push((key, value));
                assert(self.entries@.drop_last() =~= s);
            },
        }
    }
}

proof fn lemma_len_of<V>(s: Seq<(String, V)>)
    requires
        keys_distinct(s),
    ensures
        entries_map(s).len() == s.len(),
        entries_map(s).dom().finite(),
    decreases s.len(),
{
    if s.len() > 0 {
        let t = s.drop_last();
        assert(keys_distinct(t));
        lemma_len_of(t);
        lemma_entries_map_index(t);
        if entries_map(t).contains_key(s.last().0@) {
            let i = choose|i: int| 0 <= i < t.len() && t[i].0@ == s.last().0@;
            assert(s[i] == t[i]);
        }
    }
}

impl<V: Duplicate> StrMap<V> {
    /// A copy of this mapping, entries in the same order.
    pub fn duplicate(&self) -> (r: StrMap<V>)
        ensures
            r.entries@ == self.entries@,
            r@ == self@,
            r.wf() == self.wf(),
    {
        let mut out: Vec<(String, V)> = Vec::new();
        let mut i: usize = 0;
        while i < self.entries.len()
            invariant
                i <= self.entries@.len(),
                out@ == self.entries@.subrange(0, i as int),
            decreases self.entries@.len() - i,
        {
            let e = &self.entries[i];
            out.push((e.0.clone(), e.1.duplicate()));
            assert(out@ =~= self.entries@.subrange(0, i + 1));
            i = i + 1;
        }
        assert(out@ =~= self.entries@);
        StrMap { entries: out }
    }
}

} // verus!
