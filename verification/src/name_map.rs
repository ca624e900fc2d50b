//! A map keyed by names, kept as a list of entries with distinct keys in insertion order.
use vstd::prelude::*;

verus! {

/// A map from names to values.
#[derive(Debug, Clone)]
pub struct NameMap<V> {
    entries: Vec<(String, V)>,
}

/// The map that a list of entries with distinct keys stands for.
pub open spec fn entries_map<V>(entries: Seq<(String, V)>) -> Map<Seq<char>, V>
    decreases entries.len(),
{
    if entries.len() == 0 {
        Map::empty()
    } else {
        entries_map(entries.drop_last()).insert(entries.last().0@, entries.last().1)
    }
}

/// No key occurs twice.
pub open spec fn distinct_keys<V>(entries: Seq<(String, V)>) -> bool {
    forall|i: int, j: int| 0 <= i < j < entries.len() ==> entries[i].0@ != entries[j].0@
}

/// With distinct keys, the map holds exactly the entries.
pub proof fn lemma_entries_map<V>(entries: Seq<(String, V)>)
    requires
        distinct_keys(entries),
    ensures
        forall|k: Seq<char>| entries_map(entries).contains_key(k) <==> exists|i: int| 0 <= i < entries.len() && #[trigger] entries[i].0@ == k,
        forall|i: int| 0 <= i < entries.len() ==> entries_map(entries)[#[trigger] entries[i].0@] == entries[i].1,
    decreases entries.len(),
{
    if entries.len() > 0 {
        let d = entries.drop_last();
        assert forall|i: int, j: int| 0 <= i < j < d.len() implies d[i].0@ != d[j].0@ by {
            assert(d[i] == entries[i] && d[j] == entries[j]);
        }
        lemma_entries_map(d);
        assert forall|k: Seq<char>| entries_map(entries).contains_key(k) <==> exists|i: int| 0 <= i < entries.len() && #[trigger] entries[i].0@ == k by {
            if entries_map(d).contains_key(k) {
                let i = choose|i: int| 0 <= i < d.len() && #[trigger] d[i].0@ == k;
                assert(entries[i].0@ == k);
            }
            if exists|i: int| 0 <= i < entries.len() && #[trigger] entries[i].0@ == k {
                let i = choose|i: int| 0 <= i < entries.len() && #[trigger] entries[i].0@ == k;
                if i < entries.len() - 1 {
                    assert(d[i].0@ == k);
                }
            }
        }
        assert forall|i: int| 0 <= i < entries.len() implies entries_map(entries)[#[trigger] entries[i].0@] == entries[i].1 by {
            if i < entries.len() - 1 {
                assert(d[i] == entries[i]);
                assert(entries[i].0@ != entries.last().0@);
            }
        }
    }
}

impl<V> View for NameMap<V> {
    type V = Map<Seq<char>, V>;

    closed spec fn view(&self) -> Map<Seq<char>, V> {
        entries_map(self.entries@)
    }
}

impl<V> NameMap<V> {
    /// The keys are distinct.
    pub closed spec fn wf(self) -> bool {
        distinct_keys(self.entries@)
    }

    /// An empty map.
    pub fn new() -> (res: Self)
        ensures
            res.wf(),
            res@ == Map::<Seq<char>, V>::empty(),
    {
        NameMap { entries: Vec::new() }
    }

    /// The position of the entry for `key`.
    fn position(&self, key: &str) -> (res: Option<usize>)
        requires
            self.wf(),
        ensures
            match res {
                Some(i) => i < self.entries@.len() && self.entries@[i as int].0@ == key@,
                None => !self@.contains_key(key@),
            },
    {
        proof {
            lemma_entries_map(self.entries@);
        }
        let wanted = key.to_owned();
        let mut i: usize = 0;
        while i < self.entries.len()
            invariant
                i <= self.entries@.len(),
                wanted@ == key@,
                forall|k: int| 0 <= k < i ==> self.entries@[k].0@ != key@,
            decreases self.entries@.len() - i,
        {
            if self.entries[i].0 == wanted {
                return Some(i);
            }
            i = i + 1;
        }
        None
    }

    /// The value for `key`, if there is one.
    pub fn get(&self, key: &str) -> (res: Option<&V>)
        requires
            self.wf(),
        ensures
            match res {
                Some(v) => self@.contains_key(key@) && *v == self@[key@],
                None => !self@.contains_key(key@),
            },
    {
        proof {
            lemma_entries_map(self.entries@);
        }
        match self.position(key) {
            Some(i) => Some(&self.entries[i].1),
            None => None,
        }
    }

    /// Sets the value for `key`.
    pub fn insert(&mut self, key: String, value: V)
        requires
            old(self).wf(),
        ensures
            final(self).wf(),
            final(self)@ == old(self)@.insert(key@, value),
    {
        proof {
            lemma_entries_map(self.entries@);
        }
        match self.position(key.as_str()) {
            Some(i) => {
                let ghost before = self.entries@;
                let ghost entry = (key, value);
                self.entries.set(i, (key, value));
                proof {
                    lemma_entries_map_update(before, i as int, entry);
                }
            },
            None => {
                let ghost before = self.entries@;
                self.entries.push((key, value));
                proof {
                    assert(self.entries@.drop_last() =~= before);
                    lemma_entries_map(before);
                    assert forall|i2: int, j: int| 0 <= i2 < j < self.entries@.len() implies self.entries@[i2].0@ != self.entries@[j].0@ by {
                        if j == before.len() {
                            assert(entries_map(before).contains_key(before[i2].0@));
                        } else {
                            assert(before[i2].0@ != before[j].0@);
                        }
                    }
                }
            },
        }
    }

    /// Sets in this map every entry of `other`.
    pub fn extend(&mut self, other: NameMap<V>)
        requires
            old(self).wf(),
            other.wf(),
        ensures
            final(self).wf(),
            final(self)@ == old(self)@.union_prefer_right(other@),
    {
        let ghost target = self@.union_prefer_right(other@);
        let mut entries = other.entries;
        while entries.len() > 0
            invariant
                self.wf(),
                distinct_keys(entries@),
                self@.union_prefer_right(entries_map(entries@)) == target,
            decreases entries@.len(),
        {
            let ghost before = entries@;
            let ghost self_before = self@;
            let (k, v) = entries.pop().unwrap();
            proof {
                assert(entries@ =~= before.drop_last());
                assert forall|i: int, j: int| 0 <= i < j < entries@.len() implies entries@[i].0@ != entries@[j].0@ by {
                    assert(entries@[i] == before[i] && entries@[j] == before[j]);
                }
                lemma_entries_map(entries@);
                assert(!entries_map(entries@).contains_key(k@)) by {
                    if entries_map(entries@).contains_key(k@) {
                        let i = choose|i: int| 0 <= i < entries@.len() && #[trigger] entries@[i].0@ == k@;
                        assert(before[i].0@ != before[before.len() - 1].0@);
                    }
                }
            }
            self.insert(k, v);
            assert(self@.union_prefer_right(entries_map(entries@))
                =~= self_before.union_prefer_right(entries_map(before)));
        }
        assert(self@.union_prefer_right(entries_map(entries@)) =~= self@);
    }

    /// How many entries the map holds.
    pub fn len(&self) -> (res: usize)
        requires
            self.wf(),
        ensures
            res == self@.dom().len(),
    {
        proof {
            lemma_entries_map_len(self.entries@);
        }
        self.entries.len()
    }
}

/// With distinct keys, the map has as many keys as there are entries.
pub proof fn lemma_entries_map_len<V>(entries: Seq<(String, V)>)
    requires
        distinct_keys(entries),
    ensures
        entries_map(entries).dom().finite(),
        entries_map(entries).dom().len() == entries.len(),
    decreases entries.len(),
{
    if entries.len() > 0 {
        let d = entries.drop_last();
        assert forall|i: int, j: int| 0 <= i < j < d.len() implies d[i].0@ != d[j].0@ by {
            assert(d[i] == entries[i] && d[j] == entries[j]);
        }
        lemma_entries_map_len(d);
        lemma_entries_map(d);
        assert(!entries_map(d).contains_key(entries.last().0@)) by {
            if entries_map(d).contains_key(entries.last().0@) {
                let i = choose|i: int| 0 <= i < d.len() && #[trigger] d[i].0@ == entries.last().0@;
                assert(entries[i].0@ != entries[entries.len() - 1].0@);
            }
        }
    }
}

/// Replacing an entry by one with an equal key sets the value of that key.
pub proof fn lemma_entries_map_update<V>(entries: Seq<(String, V)>, i: int, entry: (String, V))
    requires
        distinct_keys(entries),
        0 <= i < entries.len(),
        entry.0@ == entries[i].0@,
    ensures
        distinct_keys(entries.update(i, entry)),
        entries_map(entries.update(i, entry)) == entries_map(entries).insert(entry.0@, entry.1),
{
    let after = entries.update(i, entry);
    assert forall|a: int, b: int| 0 <= a < b < after.len() implies after[a].0@ != after[b].0@ by {
        assert(entries[a].0@ != entries[b].0@);
    }
    lemma_entries_map(entries);
    lemma_entries_map(after);
    let expected = entries_map(entries).insert(entry.0@, entry.1);
    assert forall|k: Seq<char>| #[trigger] entries_map(after).contains_key(k) == expected.contains_key(k) by {
        if exists|m: int| 0 <= m < entries.len() && #[trigger] entries[m].0@ == k {
            let m = choose|m: int| 0 <= m < entries.len() && #[trigger] entries[m].0@ == k;
            assert(after[m].0@ == k);
        }
        if exists|m: int| 0 <= m < after.len() && #[trigger] after[m].0@ == k {
            let m = choose|m: int| 0 <= m < after.len() && #[trigger] after[m].0@ == k;
            if m != i {
                assert(entries[m].0@ == k);
            }
        }
    }
    assert forall|k: Seq<char>| #[trigger] entries_map(after).contains_key(k) implies entries_map(after)[k] == expected[k] by {
        let m = choose|m: int| 0 <= m < after.len() && #[trigger] after[m].0@ == k;
        if m != i {
            assert(entries[m] == after[m]);
        }
    }
    assert(entries_map(after) =~= expected);
}

impl<T> NameMap<Vec<T>> {
    /// Appends `item` to the list under `key`, which starts empty.
    pub fn push_to(&mut self, key: String, item: T)
        requires
            old(self).wf(),
        ensures
            final(self).wf(),
            final(self)@.dom() == old(self)@.dom().insert(key@),
            forall|k: Seq<char>| k != key@ && #[trigger] old(self)@.contains_key(k) ==> final(self)@[k] == old(self)@[k],
            final(self)@[key@]@ == (if old(self)@.contains_key(key@) { old(self)@[key@]@ } else { Seq::empty() }).push(item),
    {
        match self.position(key.as_str()) {
            Some(i) => {
                proof {
                    lemma_entries_map(self.entries@);
                }
                let ghost before = self.entries@;
                let (k, mut list) = self.entries.remove(i);
                proof {
                    assert(self.entries@ == before.remove(i as int));
                }
                list.push(item);
                let ghost new_entry = (k, list);
                self.entries.insert(i, (k, list));
                proof {
                    assert(self.entries@ =~= before.update(i as int, new_entry));
                    lemma_entries_map_update(before, i as int, new_entry);
                }
            },
            None => {
                let mut list = Vec::new();
                list.push(item);
                self.insert(key, list);
            },
        }
    }
}

} // verus!
