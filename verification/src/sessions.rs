//! The sessions that wait for a viewer to start watching: a table from
//! session id to ICE agent, and the decisions taken on it.
use vstd::prelude::*;

verus! {

/// A table from session id to a value, with at most one entry per id.
pub struct SessionTable<A> {
    entries: Vec<(String, A)>,
}

/// The map that a list of entries stands for (later entries win).
pub open spec fn entries_map<A>(s: Seq<(String, A)>) -> Map<Seq<char>, A>
    decreases s.len(),
{
    if s.len() == 0 {
        Map::empty()
    } else {
        entries_map(s.drop_last()).insert(s.last().0@, s.last().1)
    }
}

/// No id occurs twice.
pub open spec fn keys_distinct<A>(s: Seq<(String, A)>) -> bool {
    forall|i: int, j: int| 0 <= i < j < s.len() ==> s[i].0@ != s[j].0@
}

pub proof fn lemma_entries_map_domain<A>(s: Seq<(String, A)>, k: Seq<char>)
    ensures
        entries_map(s).contains_key(k) <==> exists|i: int| 0 <= i < s.len() && s[i].0@ == k,
    decreases s.len(),
{
    if s.len() > 0 {
        lemma_entries_map_domain(s.drop_last(), k);
        if entries_map(s).contains_key(k) && s.last().0@ != k {
            let i = choose|i: int| 0 <= i < s.drop_last().len() && s.drop_last()[i].0@ == k;
            assert(s[i].0@ == k);
        }
        if exists|i: int| 0 <= i < s.len() && s[i].0@ == k {
            let i = choose|i: int| 0 <= i < s.len() && s[i].0@ == k;
            if i < s.len() - 1 {
                assert(s.drop_last()[i].0@ == k);
            }
        }
    }
}

pub proof fn lemma_entries_map_value<A>(s: Seq<(String, A)>, i: int)
    requires
        keys_distinct(s),
        0 <= i < s.len(),
    ensures
        entries_map(s).contains_key(s[i].0@),
        entries_map(s)[s[i].0@] == s[i].1,
    decreases s.len(),
{
    if i < s.len() - 1 {
        assert(s.drop_last()[i] == s[i]);
        lemma_entries_map_value(s.drop_last(), i);
    }
}

pub proof fn lemma_entries_map_remove<A>(s: Seq<(String, A)>, i: int)
    requires
        keys_distinct(s),
        0 <= i < s.len(),
    ensures
        entries_map(s.remove(i)) == entries_map(s).remove(s[i].0@),
        keys_distinct(s.remove(i)),
    decreases s.len(),
{
    let k = s[i].0@;
    if i == s.len() - 1 {
        assert(s.remove(i) =~= s.drop_last());
        lemma_entries_map_domain(s.drop_last(), k);
        assert(!entries_map(s.drop_last()).contains_key(k));
        assert(entries_map(s.remove(i)) =~= entries_map(s).remove(k));
    } else {
        let t = s.drop_last();
        assert(t[i] == s[i]);
        lemma_entries_map_remove(t, i);
        assert(s.remove(i).drop_last() =~= t.remove(i));
        assert(s.remove(i).last() == s.last());
        assert(s.last().0@ != k);
        assert(entries_map(s.remove(i)) =~= entries_map(s).remove(k));
    }
}

pub proof fn lemma_entries_map_update<A>(s: Seq<(String, A)>, i: int)
    requires
        keys_distinct(s),
        0 <= i < s.len(),
    ensures
        forall|v: A|
            #![trigger s.update(i, (s[i].0, v))]
            keys_distinct(s.update(i, (s[i].0, v))) && entries_map(s.update(i, (s[i].0, v)))
                == entries_map(s).insert(s[i].0@, v),
    decreases s.len(),
{
    assert forall|v: A|
        #![trigger s.update(i, (s[i].0, v))]
        keys_distinct(s.update(i, (s[i].0, v))) && entries_map(s.update(i, (s[i].0, v)))
            == entries_map(s).insert(s[i].0@, v) by {
        let u = s.update(i, (s[i].0, v));
        let k = s[i].0@;
        if i == s.len() - 1 {
            assert(u.drop_last() =~= s.drop_last());
            assert(entries_map(u) =~= entries_map(s).insert(k, v));
        } else {
            let t = s.drop_last();
            assert(t[i] == s[i]);
            lemma_entries_map_update(t, i);
            assert(u.drop_last() =~= t.update(i, (t[i].0, v)));
            assert(s.last().0@ != k);
            assert(entries_map(u) =~= entries_map(s).insert(k, v));
        }
    }
}

impl<A> SessionTable<A> {
    /// No id occurs twice in the table.
    pub closed spec fn wf(&self) -> bool {
        keys_distinct(self.entries@)
    }

    pub closed spec fn view(&self) -> Map<Seq<char>, A> {
        entries_map(self.entries@)
    }

    /// An empty table.
    pub fn new() -> (r: Self)
        ensures
            r.wf(),
            r.view() == Map::<Seq<char>, A>::empty(),
    {
        SessionTable { entries: Vec::new() }
    }

    /// The position of `key` in the entries.
    fn find(&self, key: &String) -> (r: Option<usize>)
        requires
            self.wf(),
        ensures
            r is None <==> !self.view().contains_key(key@),
            r matches Some(i) ==> i < self.entries@.len() && self.entries@[i as int].0@ == key@,
    {
        proof {
            lemma_entries_map_domain(self.entries@, key@);
        }
        let mut i: usize = 0;
        while i < self.entries.len()
            invariant
                i <= self.entries@.len(),
                forall|j: int| 0 <= j < i ==> self.entries@[j].0@ != key@,
            decreases self.entries.len() - i,
        {
            if self.entries[i].0 == *key {
                assert(self.entries@[i as int].0@ == key@);
                proof {
                    lemma_entries_map_domain(self.entries@, key@);
                }
                return Some(i);
            }
            i = i + 1;
        }
        None
    }

    /// Whether the table holds `key`.
    pub fn contains_key(&self, key: &String) -> (b: bool)
        requires
            self.wf(),
        ensures
            b == self.view().contains_key(key@),
    {
        self.find(key).is_some()
    }

    /// Sets the value of `key`; gives the value it had before, if any.
    pub fn insert(&mut self, key: String, value: A) -> (r: Option<A>)
        requires
            old(self).wf(),
        ensures
            final(self).wf(),
            final(self).view() == old(self).view().insert(key@, value),
            old(self).view().contains_key(key@) ==> r == Some(old(self).view()[key@]),
            !old(self).view().contains_key(key@) ==> r is None,
    {
        let ghost k = key@;
        let ghost v = value;
        match self.find(&key) {
            Some(i) => {
                proof {
                    lemma_entries_map_value(self.entries@, i as int);
                    lemma_entries_map_remove(self.entries@, i as int);
                }
                let (_, old_value) = self.entries.remove(i);
                proof {
                    lemma_entries_map_domain(self.entries@, k);
                }
                let ghost prev = self.entries@;
                self.entries.push((key, value));
                assert(self.entries@.drop_last() =~= prev);
                assert(self.view() =~= old(self).view().insert(k, v));
                assert(keys_distinct(self.entries@));
                Some(old_value)
            },
            None => {
                proof {
                    lemma_entries_map_domain(self.entries@, k);
                }
                let ghost prev = self.entries@;
                self.entries.push((key, value));
                assert(self.entries@.drop_last() =~= prev);
                assert(self.view() =~= old(self).view().insert(k, v));
                assert(keys_distinct(self.entries@));
                None
            },
        }
    }

    /// Takes the entry of `key` out of the table.
    pub fn remove(&mut self, key: &String) -> (r: Option<A>)
        requires
            old(self).wf(),
        ensures
            final(self).wf(),
            final(self).view() == old(self).view().remove(key@),
            old(self).view().contains_key(key@) ==> r == Some(old(self).view()[key@]),
            !old(self).view().contains_key(key@) ==> r is None,
    {
        match self.find(key) {
            Some(i) => {
                proof {
                    lemma_entries_map_value(self.entries@, i as int);
                    lemma_entries_map_remove(self.entries@, i as int);
                }
                let (_, value) = self.entries.remove(i);
                Some(value)
            },
            None => {
                assert(old(self).view().remove(key@) =~= old(self).view());
                None
            },
        }
    }

    /// The value of `key`, to change in place.
    pub fn get_mut(&mut self, key: &String) -> (r: Option<&mut A>)
        requires
            old(self).wf(),
        ensures
            final(self).wf(),
            old(self).view().contains_key(key@) <==> r is Some,
            r matches Some(v) ==> *v == old(self).view()[key@] && final(self).view() == old(self).view().insert(key@, *final(v)),
            r is None ==> final(self).view() == old(self).view(),
    {
        match self.find(key) {
            Some(i) => {
                proof {
                    lemma_entries_map_value(self.entries@, i as int);
                    lemma_entries_map_update(self.entries@, i as int);
                }
                Some(&mut self.entries[i].1)
            },
            None => None,
        }
    }
}

} // verus!
