//! A finite map for keys that are compared by content.
use vstd::prelude::*;

use crate::hash::{same_hash, CapHash};

verus! {

/// A key that is compared by what it stands for.
pub trait TableKey: Sized {
    /// What a key stands for.
    type Id;

    spec fn id(&self) -> Self::Id;

    /// Whether both keys stand for the same.
    fn same(&self, other: &Self) -> (same: bool)
        ensures
            same == (self.id() == other.id()),
    ;
}

impl TableKey for CapHash {
    type Id = CapHash;

    open spec fn id(&self) -> CapHash {
        *self
    }

    fn same(&self, other: &CapHash) -> bool {
        same_hash(self, other)
    }
}

/// A map from content hashes to values.
pub type HashTable<V> = Table<CapHash, V>;

/// A map from keys to values. Each key occurs once.
#[derive(Debug)]
pub struct Table<K: TableKey, V> {
    entries: Vec<(K, V)>,
}

/// The map that a list of entries stands for.
pub open spec fn entries_map<K: TableKey, V>(entries: Seq<(K, V)>) -> Map<K::Id, V>
    decreases entries.len(),
{
    if entries.len() == 0 {
        Map::empty()
    } else {
        entries_map(entries.drop_last()).insert(entries.last().0.id(), entries.last().1)
    }
}

/// Whether no key occurs twice.
pub open spec fn keys_distinct<K: TableKey, V>(entries: Seq<(K, V)>) -> bool {
    forall|i: int, j: int|
        #![trigger entries[i], entries[j]]
        0 <= i < j < entries.len() ==> entries[i].0.id() != entries[j].0.id()
}

/// What a list of entries with distinct keys stands for.
pub proof fn lemma_entries_map<K: TableKey, V>(entries: Seq<(K, V)>)
    requires
        keys_distinct(entries),
    ensures
        entries_map(entries).dom().finite(),
        entries_map(entries).len() == entries.len(),
        forall|i: int|
            #![trigger entries[i]]
            0 <= i < entries.len() ==> entries_map(entries).contains_key(entries[i].0.id())
                && entries_map(entries)[entries[i].0.id()] == entries[i].1,
        forall|k: K::Id| #[trigger]
            entries_map(entries).contains_key(k) ==> exists|i: int|
                0 <= i < entries.len() && (#[trigger] entries[i]).0.id() == k,
    decreases entries.len(),
{
    if entries.len() > 0 {
        let init = entries.drop_last();
        assert forall|i: int, j: int|
            #![trigger init[i], init[j]]
            0 <= i < j < init.len() implies init[i].0.id() != init[j].0.id() by {
            assert(init[i] == entries[i] && init[j] == entries[j]);
        }
        lemma_entries_map(init);
        let last = entries.last();
        if entries_map(init).contains_key(last.0.id()) {
            let i = choose|i: int| 0 <= i < init.len() && (#[trigger] init[i]).0.id() == last.0.id();
            assert(entries[i] == init[i]);
            assert(entries[entries.len() - 1] == last);
            assert(false);
        }
        assert forall|i: int| 0 <= i < entries.len() implies entries_map(entries).contains_key(
            #[trigger] entries[i].0.id(),
        ) && entries_map(entries)[entries[i].0.id()] == entries[i].1 by {
            if i < init.len() {
                assert(init[i] == entries[i]);
                assert(entries[entries.len() - 1] == last);
            }
        }
        assert forall|k: K::Id| #[trigger]
            entries_map(entries).contains_key(k) implies exists|i: int|
            0 <= i < entries.len() && (#[trigger] entries[i]).0.id() == k by {
            if k == last.0.id() {
                assert(entries[entries.len() - 1].0.id() == k);
            } else {
                assert(entries_map(init).contains_key(k));
                let i = choose|i: int| 0 <= i < init.len() && (#[trigger] init[i]).0.id() == k;
                assert(entries[i] == init[i]);
            }
        }
    }
}

/// Two entry lists with distinct keys and the same members stand for maps that
/// agree on every key.
proof fn lemma_same_entries<K: TableKey, V>(entries: Seq<(K, V)>, m: Map<K::Id, V>)
    requires
        keys_distinct(entries),
        forall|i: int|
            #![trigger entries[i]]
            0 <= i < entries.len() ==> m.contains_key(entries[i].0.id()) && m[entries[i].0.id()]
                == entries[i].1,
        forall|k: K::Id| #[trigger]
            m.contains_key(k) ==> exists|i: int|
                0 <= i < entries.len() && (#[trigger] entries[i]).0.id() == k,
    ensures
        entries_map(entries) == m,
{
    lemma_entries_map(entries);
    let em = entries_map(entries);
    assert forall|k: K::Id| em.contains_key(k) <==> m.contains_key(k) by {
        if em.contains_key(k) {
            let i = choose|i: int| 0 <= i < entries.len() && (#[trigger] entries[i]).0.id() == k;
        }
        if m.contains_key(k) {
            let i = choose|i: int| 0 <= i < entries.len() && (#[trigger] entries[i]).0.id() == k;
        }
    }
    assert forall|k: K::Id| em.contains_key(k) implies em[k] == m[k] by {
        let i = choose|i: int| 0 <= i < entries.len() && (#[trigger] entries[i]).0.id() == k;
    }
    assert(em =~= m);
}

impl<K: TableKey, V> View for Table<K, V> {
    type V = Map<K::Id, V>;

    closed spec fn view(&self) -> Map<K::Id, V> {
        entries_map(self.entries@)
    }
}

impl<K: TableKey, V> Table<K, V> {
    #[verifier::type_invariant]
    spec fn distinct(&self) -> bool {
        keys_distinct(self.entries@)
    }

    /// An empty table.
    pub fn new() -> (table: Table<K, V>)
        ensures
            table@ == Map::<K::Id, V>::empty(),
    {
        Table { entries: Vec::new() }
    }

    /// Number of keys.
    pub fn len(&self) -> (len: usize)
        ensures
            self@.dom().finite(),
            len == self@.len(),
    {
        proof {
            use_type_invariant(&*self);
            lemma_entries_map(self.entries@);
        }
        self.entries.len()
    }

    /// The entries in no particular order.
    pub fn entries(&self) -> (list: &Vec<(K, V)>)
        ensures
            keys_distinct(list@),
            entries_map(list@) == self@,
    {
        proof {
            use_type_invariant(&*self);
        }
        &self.entries
    }

    fn position(entries: &Vec<(K, V)>, key: &K) -> (found: Option<usize>)
        ensures
            found matches Some(i) ==> i < entries@.len() && entries@[i as int].0.id() == key.id(),
            found is None ==> forall|i: int| 0 <= i < entries@.len() ==> entries@[i].0.id() != key.id(),
    {
        let mut i: usize = 0;
        while i < entries.len()
            invariant
                i <= entries@.len(),
                forall|j: int| 0 <= j < i ==> entries@[j].0.id() != key.id(),
            decreases entries@.len() - i,
        {
            if entries[i].0.same(key) {
                return Some(i);
            }
            i = i + 1;
        }
        None
    }

    /// The value under `key`.
    pub fn get(&self, key: &K) -> (value: Option<&V>)
        ensures
            value == (if self@.contains_key(key.id()) {
                Some(&self@[key.id()])
            } else {
                None
            }),
    {
        proof {
            use_type_invariant(&*self);
            lemma_entries_map(self.entries@);
        }
        match Self::position(&self.entries, key) {
            Some(i) => Some(&self.entries[i].1),
            None => None,
        }
    }

    /// Put `value` under `key`, replacing what was there.
    pub fn insert(&mut self, key: K, value: V)
        ensures
            final(self)@ == old(self)@.insert(key.id(), value),
    {
        proof {
            use_type_invariant(&*self);
            lemma_entries_map(self.entries@);
        }
        let ghost before = self.entries@;
        let mut entries: Vec<(K, V)> = Vec::new();
        std::mem::swap(&mut entries, &mut self.entries);
        match Self::position(&entries, &key) {
            Some(i) => {
                entries.set(i, (key, value));
            },
            None => {
                entries.push((key, value));
            },
        }
        proof {
            let after = entries@;
            let m = entries_map(before).insert(key.id(), value);
            assert forall|i: int, j: int|
                #![trigger after[i], after[j]]
                0 <= i < j < after.len() implies after[i].0.id() != after[j].0.id() by {
                if i < before.len() && j < before.len() {
                    assert(before[i].0.id() != before[j].0.id());
                }
            }
            assert forall|k: K::Id| #[trigger] m.contains_key(k) implies exists|i: int|
                0 <= i < after.len() && (#[trigger] after[i]).0.id() == k by {
                if k == key.id() {
                    if after.len() == before.len() {
                        let p = choose|p: int|
                            0 <= p < before.len() && (#[trigger] before[p]).0.id() == key.id();
                        assert(before[p].0.id() == key.id());
                        assert(after[p].0.id() == key.id());
                    } else {
                        assert(after[after.len() - 1].0.id() == key.id());
                    }
                } else {
                    let p = choose|p: int| 0 <= p < before.len() && (#[trigger] before[p]).0.id() == k;
                    assert(after[p].0.id() == k);
                }
            }
            assert forall|i: int|
                #![trigger after[i]]
                0 <= i < after.len() implies m.contains_key(after[i].0.id()) && m[after[i].0.id()]
                == after[i].1 by {
                if i < before.len() && before[i].0.id() != key.id() {
                    assert(after[i] == before[i]);
                }
            }
            lemma_same_entries(after, m);
        }
        self.entries = entries;
    }

    /// Take out `key` and its value.
    pub fn remove(&mut self, key: &K) -> (value: Option<V>)
        ensures
            final(self)@ == old(self)@.remove(key.id()),
            value == (if old(self)@.contains_key(key.id()) {
                Some(old(self)@[key.id()])
            } else {
                None
            }),
    {
        proof {
            use_type_invariant(&*self);
            lemma_entries_map(self.entries@);
        }
        let ghost before = self.entries@;
        let mut entries: Vec<(K, V)> = Vec::new();
        std::mem::swap(&mut entries, &mut self.entries);
        match Self::position(&entries, key) {
            Some(i) => {
                let taken = entries.remove(i);
                proof {
                    let after = entries@;
                    let m = entries_map(before).remove(key.id());
                    assert forall|a: int, b: int|
                        #![trigger after[a], after[b]]
                        0 <= a < b < after.len() implies after[a].0.id() != after[b].0.id() by {
                        let a0 = if a < i { a } else { a + 1 };
                        let b0 = if b < i { b } else { b + 1 };
                        assert(before[a0].0.id() != before[b0].0.id());
                    }
                    assert forall|a: int|
                        #![trigger after[a]]
                        0 <= a < after.len() implies m.contains_key(after[a].0.id()) && m[after[a].0.id()]
                        == after[a].1 by {
                        let a0 = if a < i { a } else { a + 1 };
                        assert(after[a] == before[a0]);
                        if a0 < i {
                            assert(before[a0].0.id() != before[i as int].0.id());
                        } else {
                            assert(before[i as int].0.id() != before[a0].0.id());
                        }
                    }
                    assert forall|k: K::Id| #[trigger] m.contains_key(k) implies exists|a: int|
                        0 <= a < after.len() && (#[trigger] after[a]).0.id() == k by {
                        let p = choose|p: int|
                            0 <= p < before.len() && (#[trigger] before[p]).0.id() == k;
                        let a = if p < i { p } else { p - 1 };
                        assert(p != i);
                        assert(after[a] == before[p]);
                    }
                    lemma_same_entries(after, m);
                }
                self.entries = entries;
                Some(taken.1)
            },
            None => {
                assert(entries_map(before).remove(key.id()) =~= entries_map(before));
                self.entries = entries;
                None
            },
        }
    }

    /// Drop every entry.
    pub fn clear(&mut self)
        ensures
            final(self)@ == Map::<K::Id, V>::empty(),
    {
        self.entries = Vec::new();
    }
}

} // verus!
