//! Small maps keyed by user name, kept in the order in which users first appear.

use vstd::prelude::*;

verus! {

/// The map that a list of named entries denotes, later entries overriding earlier ones.
pub open spec fn entries_map<V>(entries: Seq<(String, V)>) -> Map<Seq<char>, V>
    decreases entries.len(),
{
    if entries.len() == 0 {
        Map::empty()
    } else {
        entries_map(entries.drop_last()).insert(entries.last().0@, entries.last().1)
    }
}

/// No name occurs twice among the entries.
pub open spec fn distinct_names<V>(entries: Seq<(String, V)>) -> bool {
    forall|i: int, j: int| 0 <= i < j < entries.len() ==> entries[i].0@ != entries[j].0@
}

/// A name is a key of the map exactly when some entry carries it.
pub proof fn lemma_entries_map_dom<V>(entries: Seq<(String, V)>, k: Seq<char>)
    ensures
        entries_map(entries).contains_key(k) <==> exists|i: int| 0 <= i < entries.len() && entries[i].0@ == k,
    decreases entries.len(),
{
    if entries.len() > 0 {
        lemma_entries_map_dom(entries.drop_last(), k);
        if exists|i: int| 0 <= i < entries.len() && entries[i].0@ == k {
            let i = choose|i: int| 0 <= i < entries.len() && entries[i].0@ == k;
            if i < entries.len() - 1 {
                assert(entries.drop_last()[i].0@ == k);
            }
        }
        if exists|i: int| 0 <= i < entries.len() - 1 && entries.drop_last()[i].0@ == k {
            let i = choose|i: int| 0 <= i < entries.len() - 1 && entries.drop_last()[i].0@ == k;
            assert(entries[i].0@ == k);
        }
    }
}

/// With distinct names, the map gives each entry's value for its name.
pub proof fn lemma_entries_map_value<V>(entries: Seq<(String, V)>, i: int)
    requires
        distinct_names(entries),
        0 <= i < entries.len(),
    ensures
        entries_map(entries).contains_key(entries[i].0@),
        entries_map(entries)[entries[i].0@] == entries[i].1,
    decreases entries.len(),
{
    if i < entries.len() - 1 {
        lemma_entries_map_value(entries.drop_last(), i);
    }
}

/// With distinct names, overwriting an entry's value overwrites it in the map.
pub proof fn lemma_entries_map_update<V>(entries: Seq<(String, V)>, i: int, v: V)
    requires
        distinct_names(entries),
        0 <= i < entries.len(),
    ensures
        entries_map(entries.update(i, (entries[i].0, v))) == entries_map(entries).insert(entries[i].0@, v),
    decreases entries.len(),
{
    let k = entries[i].0@;
    let e2 = entries.update(i, (entries[i].0, v));
    if i == entries.len() - 1 {
        assert(e2.drop_last() =~= entries.drop_last());
        lemma_entries_map_dom(entries.drop_last(), k);
        assert(entries_map(entries.drop_last()).insert(k, v) =~= entries_map(entries).insert(k, v));
    } else {
        lemma_entries_map_update(entries.drop_last(), i, v);
        assert(e2.drop_last() =~= entries.drop_last().update(i, (entries[i].0, v)));
        let last = entries.last();
        assert(last.0@ != k);
        assert(entries_map(e2) =~= entries_map(entries).insert(k, v));
    }
}

/// Entries in order of first appearance, at most one per user name.
#[derive(Clone, Debug)]
pub struct UserMap<V> {
    pub entries: Vec<(String, V)>,
}

impl<V> UserMap<V> {
    /// The map from user names to values.
    pub open spec fn view_map(self) -> Map<Seq<char>, V> {
        entries_map(self.entries@)
    }

    /// No user occurs twice.
    pub open spec fn wf(self) -> bool {
        distinct_names(self.entries@)
    }

    /// The empty map.
    pub fn new() -> (m: UserMap<V>)
        ensures
            m.wf(),
            m.entries@.len() == 0,
            m.view_map() == Map::<Seq<char>, V>::empty(),
    {
        UserMap { entries: Vec::new() }
    }

    /// The number of users.
    pub fn len(&self) -> (n: usize)
        requires
            self.wf(),
        ensures
            n == self.entries@.len(),
            n == self.view_map().len(),
    {
        proof {
            self.lemma_len();
        }
        self.entries.len()
    }

    /// The map has as many keys as entries.
    pub proof fn lemma_len(self)
        requires
            self.wf(),
        ensures
            self.view_map().dom().finite(),
            self.view_map().len() == self.entries@.len(),
        decreases self.entries@.len(),
    {
        lemma_entries_len(self.entries@);
    }

    /// The position of the user's entry, if any.
    pub fn position(&self, name: &String) -> (pos: Option<usize>)
        requires
            self.wf(),
        ensures
            pos is Some <==> self.view_map().contains_key(name@),
            pos matches Some(i) ==> i < self.entries@.len() && self.entries@[i as int].0@ == name@
                && self.view_map()[name@] == self.entries@[i as int].1,
    {
        proof {
            lemma_entries_map_dom(self.entries@, name@);
        }
        let mut i: usize = 0;
        while i < self.entries.len()
            invariant
                0 <= i <= self.entries@.len(),
                self.wf(),
                forall|k: int| 0 <= k < i ==> self.entries@[k].0@ != name@,
            decreases self.entries@.len() - i,
        {
            if self.entries[i].0 == *name {
                proof {
                    lemma_entries_map_value(self.entries@, i as int);
                }
                return Some(i);
            }
            i = i + 1;
        }
        None
    }

    /// The user's value, if any.
    pub fn get(&self, name: &String) -> (v: Option<&V>)
        requires
            self.wf(),
        ensures
            v is Some <==> self.view_map().contains_key(name@),
            v matches Some(x) ==> *x == self.view_map()[name@],
    {
        match self.position(name) {
            Some(i) => Some(&self.entries[i].1),
            None => None,
        }
    }

    /// Sets the user's value; a new user goes last.
    pub fn insert(&mut self, name: String, value: V)
        requires
            old(self).wf(),
        ensures
            final(self).wf(),
            final(self).view_map() == old(self).view_map().insert(name@, value),
            old(self).view_map().contains_key(name@) ==> final(self).entries@.len() == old(self).entries@.len(),
            !old(self).view_map().contains_key(name@) ==> final(self).entries@ == old(self).entries@.push((name, value)),
    {
        match self.position(&name) {
            Some(i) => {
                proof {
                    lemma_entries_map_update(self.entries@, i as int, value);
                }
                let ghost before = self.entries@;
                let n = self.entries[i].0.clone();
                self.entries.set(i, (n, value));
                assert(self.entries@ =~= before.update(i as int, (before[i as int].0, value)));
            },
            None => {
                proof {
                    lemma_entries_map_dom(self.entries@, name@);
                }
                self.entries.push((name, value));
                assert(self.entries@.drop_last() =~= old(self).entries@);
            },
        }
    }

    /// Removes every entry.
    pub fn clear(&mut self)
        ensures
            final(self).wf(),
            final(self).entries@.len() == 0,
            final(self).view_map() == Map::<Seq<char>, V>::empty(),
    {
        self.entries.clear();
    }
}

/// A map of distinct entries has one key per entry.
pub proof fn lemma_entries_len<V>(entries: Seq<(String, V)>)
    requires
        distinct_names(entries),
    ensures
        entries_map(entries).dom().finite(),
        entries_map(entries).len() == entries.len(),
    decreases entries.len(),
{
    if entries.len() > 0 {
        lemma_entries_len(entries.drop_last());
        lemma_entries_map_dom(entries.drop_last(), entries.last().0@);
    }
}

} // verus!
