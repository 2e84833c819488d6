//! A small map from strings to values, kept as a list of entries with no key
//! repeated.

use vstd::prelude::*;

verus! {

/// Entries as a map; when a key repeats, its first entry counts.
pub open spec fn entries_map<V>(es: Seq<(String, V)>) -> Map<Seq<char>, V>
    decreases es.len(),
{
    if es.len() == 0 {
        Map::empty()
    } else {
        entries_map(es.drop_first()).insert(es[0].0@, es[0].1)
    }
}

/// No key occurs in two entries.
pub open spec fn keys_unique<V>(es: Seq<(String, V)>) -> bool {
    forall|i: int, j: int|
        0 <= i < es.len() && 0 <= j < es.len() && i != j ==> (#[trigger] es[i]).0@ != (
        #[trigger] es[j]).0@
}

pub proof fn lemma_entries_lookup<V>(es: Seq<(String, V)>, k: Seq<char>, i: int)
    requires
        keys_unique(es),
        0 <= i < es.len(),
        es[i].0@ == k,
    ensures
        entries_map(es).dom().contains(k),
        entries_map(es)[k] == es[i].1,
    decreases es.len(),
{
    if i > 0 {
        assert(es.drop_first()[i - 1] == es[i]);
        assert(keys_unique(es.drop_first())) by {
            assert forall|a: int, b: int|
                0 <= a < es.drop_first().len() && 0 <= b < es.drop_first().len() && a != b
                    implies (#[trigger] es.drop_first()[a]).0@ != (#[trigger] es.drop_first()[b]).0@ by {
                assert(es.drop_first()[a] == es[a + 1]);
                assert(es.drop_first()[b] == es[b + 1]);
            }
        }
        lemma_entries_lookup(es.drop_first(), k, i - 1);
        assert(es[0].0@ != k);
    }
}

pub proof fn lemma_entries_absent<V>(es: Seq<(String, V)>, k: Seq<char>)
    requires
        forall|i: int| 0 <= i < es.len() ==> (#[trigger] es[i]).0@ != k,
    ensures
        !entries_map(es).dom().contains(k),
    decreases es.len(),
{
    if es.len() > 0 {
        assert forall|i: int| 0 <= i < es.drop_first().len() implies (#[trigger] es.drop_first()[i]).0@ != k by {
            assert(es.drop_first()[i] == es[i + 1]);
        }
        lemma_entries_absent(es.drop_first(), k);
        assert(es[0].0@ != k);
    }
}

pub proof fn lemma_entries_push<V>(es: Seq<(String, V)>, e: (String, V))
    requires
        forall|i: int| 0 <= i < es.len() ==> (#[trigger] es[i]).0@ != e.0@,
    ensures
        entries_map(es.push(e)) == entries_map(es).insert(e.0@, e.1),
    decreases es.len(),
{
    if es.len() == 0 {
        assert(es.push(e).drop_first() =~= es);
        assert(entries_map(es.push(e)) =~= entries_map(es).insert(e.0@, e.1));
    } else {
        assert(es.push(e).drop_first() =~= es.drop_first().push(e));
        assert forall|i: int| 0 <= i < es.drop_first().len() implies (#[trigger] es.drop_first()[i]).0@ != e.0@ by {
            assert(es.drop_first()[i] == es[i + 1]);
        }
        lemma_entries_push(es.drop_first(), e);
        assert(es.push(e)[0] == es[0]);
        assert(es[0].0@ != e.0@);
        assert(entries_map(es.push(e)) =~= entries_map(es).insert(e.0@, e.1));
    }
}

pub proof fn lemma_entries_update<V>(es: Seq<(String, V)>, i: int, e: (String, V))
    requires
        keys_unique(es),
        0 <= i < es.len(),
        es[i].0@ == e.0@,
    ensures
        entries_map(es.update(i, e)) == entries_map(es).insert(e.0@, e.1),
    decreases es.len(),
{
    if i == 0 {
        assert(es.update(0, e).drop_first() =~= es.drop_first());
        assert(entries_map(es.update(i, e)) =~= entries_map(es).insert(e.0@, e.1));
    } else {
        assert(es.update(i, e).drop_first() =~= es.drop_first().update(i - 1, e));
        assert(es.drop_first()[i - 1] == es[i]);
        assert(keys_unique(es.drop_first())) by {
            assert forall|a: int, b: int|
                0 <= a < es.drop_first().len() && 0 <= b < es.drop_first().len() && a != b
                    implies (#[trigger] es.drop_first()[a]).0@ != (#[trigger] es.drop_first()[b]).0@ by {
                assert(es.drop_first()[a] == es[a + 1]);
                assert(es.drop_first()[b] == es[b + 1]);
            }
        }
        lemma_entries_update(es.drop_first(), i - 1, e);
        assert(es[0].0@ != e.0@);
        assert(entries_map(es.update(i, e)) =~= entries_map(es).insert(e.0@, e.1));
    }
}

pub proof fn lemma_entries_remove<V>(es: Seq<(String, V)>, i: int)
    requires
        keys_unique(es),
        0 <= i < es.len(),
    ensures
        entries_map(es.remove(i)) == entries_map(es).remove(es[i].0@),
    decreases es.len(),
{
    let k = es[i].0@;
    if i == 0 {
        assert(es.remove(0) =~= es.drop_first());
        assert forall|j: int| 0 <= j < es.drop_first().len() implies (#[trigger] es.drop_first()[j]).0@ != k by {
            assert(es.drop_first()[j] == es[j + 1]);
        }
        lemma_entries_absent(es.drop_first(), k);
        assert(entries_map(es.remove(i)) =~= entries_map(es).remove(k));
    } else {
        assert(es.remove(i).drop_first() =~= es.drop_first().remove(i - 1));
        assert(es.remove(i)[0] == es[0]);
        assert(es.drop_first()[i - 1] == es[i]);
        assert(keys_unique(es.drop_first())) by {
            assert forall|a: int, b: int|
                0 <= a < es.drop_first().len() && 0 <= b < es.drop_first().len() && a != b
                    implies (#[trigger] es.drop_first()[a]).0@ != (#[trigger] es.drop_first()[b]).0@ by {
                assert(es.drop_first()[a] == es[a + 1]);
                assert(es.drop_first()[b] == es[b + 1]);
            }
        }
        lemma_entries_remove(es.drop_first(), i - 1);
        assert(es[0].0@ != k);
        assert(entries_map(es.remove(i)) =~= entries_map(es).remove(k));
    }
}

/// A map from strings to values.
pub struct Table<V> {
    entries: Vec<(String, V)>,
}

impl<V> Table<V> {
    /// The table as a map.
    pub closed spec fn map(&self) -> Map<Seq<char>, V> {
        entries_map(self.entries@)
    }

    /// The entries, in the order they were first inserted.
    pub closed spec fn seq(&self) -> Seq<(String, V)> {
        self.entries@
    }

    /// No key is held twice.
    pub closed spec fn wf(&self) -> bool {
        keys_unique(self.entries@)
    }

    pub proof fn lemma_seq_map(&self)
        requires
            self.wf(),
        ensures
            keys_unique(self.seq()),
            entries_map(self.seq()) == self.map(),
            forall|i: int| 0 <= i < self.seq().len() ==> self.map().dom().contains(#[trigger] self.seq()[i].0@)
                && self.map()[self.seq()[i].0@] == self.seq()[i].1,
            forall|k: Seq<char>| #[trigger] self.map().dom().contains(k) ==> exists|i: int| 0 <= i < self.seq().len() && (#[trigger] self.seq()[i]).0@ == k,
    {
        assert forall|i: int| 0 <= i < self.seq().len() implies self.map().dom().contains(#[trigger] self.seq()[i].0@)
            && self.map()[self.seq()[i].0@] == self.seq()[i].1 by {
            lemma_entries_lookup(self.entries@, self.entries@[i].0@, i);
        }
        assert forall|k: Seq<char>| #[trigger] self.map().dom().contains(k) implies exists|i: int| 0 <= i < self.seq().len() && (#[trigger] self.seq()[i]).0@ == k by {
            if forall|i: int| 0 <= i < self.entries@.len() ==> (#[trigger] self.entries@[i]).0@ != k {
                lemma_entries_absent(self.entries@, k);
            } else {
                let i = choose|i: int| 0 <= i < self.entries@.len() && (#[trigger] self.entries@[i]).0@ == k;
                assert(self.seq()[i].0@ == k);
            }
        }
    }

    /// An empty table.
    pub fn new() -> (t: Self)
        ensures
            t.wf(),
            t.map() == Map::<Seq<char>, V>::empty(),
            t.seq().len() == 0,
    {
        Table { entries: Vec::new() }
    }

    /// The number of keys.
    pub fn len(&self) -> (n: usize)
        requires
            self.wf(),
        ensures
            n == self.seq().len(),
    {
        self.entries.len()
    }

    /// The entries, in insertion order.
    pub fn entries(&self) -> (es: &Vec<(String, V)>)
        ensures
            es@ == self.seq(),
    {
        &self.entries
    }

    /// The position of `key`, if it is held.
    fn position(&self, key: &str) -> (r: Option<usize>)
        requires
            self.wf(),
        ensures
            match r {
                Some(i) => i < self.entries@.len() && self.entries@[i as int].0@ == key@,
                None => forall|j: int| 0 <= j < self.entries@.len() ==> (#[trigger] self.entries@[j]).0@ != key@,
            },
    {
        let mut i: usize = 0;
        while i < self.entries.len()
            invariant
                0 <= i <= self.entries@.len(),
                forall|j: int| 0 <= j < i ==> (#[trigger] self.entries@[j]).0@ != key@,
            decreases self.entries@.len() - i,
        {
            if crate::text::str_eq(self.entries[i].0.as_str(), key) {
                return Some(i);
            }
            i += 1;
        }
        None
    }

    /// Whether `key` is held.
    pub fn contains_key(&self, key: &str) -> (b: bool)
        requires
            self.wf(),
        ensures
            b == self.map().dom().contains(key@),
    {
        match self.position(key) {
            Some(i) => {
                proof {
                    lemma_entries_lookup(self.entries@, key@, i as int);
                }
                true
            },
            None => {
                proof {
                    lemma_entries_absent(self.entries@, key@);
                }
                false
            },
        }
    }

    /// The value held for `key`.
    pub fn get(&self, key: &str) -> (r: Option<&V>)
        requires
            self.wf(),
        ensures
            match r {
                Some(v) => self.map().dom().contains(key@) && self.map()[key@] == *v,
                None => !self.map().dom().contains(key@),
            },
    {
        match self.position(key) {
            Some(i) => {
                proof {
                    lemma_entries_lookup(self.entries@, key@, i as int);
                }
                Some(&self.entries[i].1)
            },
            None => {
                proof {
                    lemma_entries_absent(self.entries@, key@);
                }
                None
            },
        }
    }

    /// Holds `v` for `key`, replacing any earlier value. A new key goes last;
    /// an existing one keeps its place.
    pub fn insert(&mut self, key: String, v: V)
        requires
            old(self).wf(),
        ensures
            final(self).wf(),
            final(self).map() == old(self).map().insert(key@, v),
            old(self).map().dom().contains(key@) ==> final(self).seq().len() == old(self).seq().len(),
            !old(self).map().dom().contains(key@) ==> final(self).seq() == old(self).seq().push((key, v)),
    {
        match self.position(key.as_str()) {
            Some(i) => {
                let ghost before = self.entries@;
                proof {
                    lemma_entries_update(self.entries@, i as int, (key, v));
                    lemma_entries_lookup(self.entries@, key@, i as int);
                }
                self.entries.set(i, (key, v));
                assert(self.entries@ == before.update(i as int, (key, v)));
                assert(keys_unique(self.entries@)) by {
                    assert forall|a: int, b: int|
                        0 <= a < self.entries@.len() && 0 <= b < self.entries@.len() && a != b
                            implies (#[trigger] self.entries@[a]).0@ != (#[trigger] self.entries@[b]).0@ by {
                        if a != i && b != i {
                            assert(before[a] == self.entries@[a]);
                            assert(before[b] == self.entries@[b]);
                        } else if a == i {
                            assert(before[b] == self.entries@[b]);
                        } else {
                            assert(before[a] == self.entries@[a]);
                        }
                    }
                }
            },
            None => {
                let ghost before = self.entries@;
                proof {
                    lemma_entries_push(self.entries@, (key, v));
                    lemma_entries_absent(self.entries@, key@);
                }
                self.entries.push((key, v));
                assert(keys_unique(self.entries@)) by {
                    assert forall|a: int, b: int|
                        0 <= a < self.entries@.len() && 0 <= b < self.entries@.len() && a != b
                            implies (#[trigger] self.entries@[a]).0@ != (#[trigger] self.entries@[b]).0@ by {
                        if a < before.len() && b < before.len() {
                            assert(before[a] == self.entries@[a]);
                            assert(before[b] == self.entries@[b]);
                        } else if a < before.len() {
                            assert(before[a] == self.entries@[a]);
                        } else {
                            assert(before[b] == self.entries@[b]);
                        }
                    }
                }
            },
        }
    }

    /// Takes the value held for `key` out of the table.
    pub fn remove(&mut self, key: &str) -> (r: Option<V>)
        requires
            old(self).wf(),
        ensures
            final(self).wf(),
            final(self).map() == old(self).map().remove(key@),
            match r {
                Some(v) => old(self).map().dom().contains(key@) && old(self).map()[key@] == v,
                None => !old(self).map().dom().contains(key@),
            },
    {
        match self.position(key) {
            Some(i) => {
                let ghost before = self.entries@;
                proof {
                    lemma_entries_remove(self.entries@, i as int);
                    lemma_entries_lookup(self.entries@, key@, i as int);
                }
                let (_, v) = self.entries.remove(i);
                assert(self.entries@ == before.remove(i as int));
                assert(keys_unique(self.entries@)) by {
                    assert forall|a: int, b: int|
                        0 <= a < self.entries@.len() && 0 <= b < self.entries@.len() && a != b
                            implies (#[trigger] self.entries@[a]).0@ != (#[trigger] self.entries@[b]).0@ by {
                        let a0 = if a < i { a } else { a + 1 };
                        let b0 = if b < i { b } else { b + 1 };
                        assert(before[a0] == self.entries@[a]);
                        assert(before[b0] == self.entries@[b]);
                    }
                }
                Some(v)
            },
            None => {
                proof {
                    lemma_entries_absent(self.entries@, key@);
                    assert(entries_map(self.entries@).remove(key@) =~= entries_map(self.entries@));
                }
                None
            },
        }
    }
}

} // verus!
