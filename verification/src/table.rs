//! A small map that keeps its keys in the order in which they came.

use vstd::prelude::*;

use crate::text::same;

verus! {

/// A key of a [`Table`]: two keys with the same view are the same key.
pub trait Key: View + Sized {
    /// Whether both are the same key.
    fn same_key(&self, other: &Self) -> (res: bool)
        ensures
            res == (self@ == other@),
    ;
}

impl Key for String {
    fn same_key(&self, other: &Self) -> (res: bool) {
        same(self.as_str(), other.as_str())
    }
}

impl Key for u32 {
    fn same_key(&self, other: &Self) -> (res: bool) {
        *self == *other
    }
}

impl Key for u8 {
    fn same_key(&self, other: &Self) -> (res: bool) {
        *self == *other
    }
}

/// A map with at most one value for each key.
#[derive(Debug)]
pub struct Table<K: Key, T> {
    entries: Vec<(K, T)>,
}

/// The keys of a list of entries.
pub open spec fn entry_keys<K: Key, T>(entries: Seq<(K, T)>) -> Seq<K::V> {
    entries.map_values(|e: (K, T)| e.0@)
}

/// The map that a list of entries without repeated keys stands for.
pub open spec fn entry_map<K: Key, T>(entries: Seq<(K, T)>) -> Map<K::V, T> {
    Map::new(
        |k: K::V| entry_keys(entries).contains(k),
        |k: K::V| entries[entry_keys(entries).index_of(k)].1,
    )
}

proof fn lemma_entry<K: Key, T>(entries: Seq<(K, T)>, i: int)
    requires
        entry_keys(entries).no_duplicates(),
        0 <= i < entries.len(),
    ensures
        entry_map(entries).contains_key(entries[i].0@),
        entry_map(entries)[entries[i].0@] == entries[i].1,
{
    let keys = entry_keys(entries);
    assert(keys[i] == entries[i].0@);
    assert(keys.contains(keys[i]));
    let j = keys.index_of(keys[i]);
    assert(0 <= j < keys.len() && keys[j] == keys[i]);
}

impl<K: Key, T> View for Table<K, T> {
    type V = Map<K::V, T>;

    closed spec fn view(&self) -> Map<K::V, T> {
        entry_map(self.entries@)
    }
}

impl<K: Key, T> Table<K, T> {
    /// Every key stands once.
    #[verifier::type_invariant]
    spec fn distinct(&self) -> bool {
        entry_keys(self.entries@).no_duplicates()
    }

    /// The keys, in the order in which they came.
    pub closed spec fn order(&self) -> Seq<K::V> {
        entry_keys(self.entries@)
    }

    /// The empty table.
    pub fn new() -> (res: Self)
        ensures
            res@ == Map::<K::V, T>::empty(),
            res.order() == Seq::<K::V>::empty(),
    {
        let entries: Vec<(K, T)> = Vec::new();
        assert(entry_keys(entries@) =~= Seq::<K::V>::empty());
        let res = Table { entries };
        assert(res@ =~= Map::<K::V, T>::empty());
        res
    }

    /// The number of keys.
    pub fn len(&self) -> (res: usize)
        ensures
            res == self@.dom().len(),
            res == self.order().len(),
            self.order().no_duplicates(),
            forall|k: K::V| self@.contains_key(k) <==> #[trigger] self.order().contains(k),
    {
        proof {
            use_type_invariant(self);
            self.order().unique_seq_to_set();
            assert(self@.dom() =~= self.order().to_set());
        }
        self.entries.len()
    }

    /// A table has finitely many keys.
    pub proof fn lemma_finite(&self)
        ensures
            self@.dom().finite(),
    {
        let keys = entry_keys(self.entries@);
        assert(self@.dom() =~= keys.to_set());
        vstd::seq_lib::seq_to_set_is_finite(keys);
    }

    /// The keys in their order are those that have a value.
    pub proof fn lemma_order(&self)
        ensures
            forall|k: K::V| #[trigger] self.order().contains(k) <==> self@.contains_key(k),
    {
    }

    /// The key that came as the `i`-th, counted from zero.
    pub fn key_at(&self, i: usize) -> (res: &K)
        requires
            i < self.order().len(),
        ensures
            res@ == self.order()[i as int],
            self@.contains_key(res@),
    {
        proof {
            use_type_invariant(self);
            lemma_entry(self.entries@, i as int);
        }
        &self.entries[i].0
    }

    /// The value of the key that came as the `i`-th, counted from zero.
    pub fn value_at(&self, i: usize) -> (res: &T)
        requires
            i < self.order().len(),
        ensures
            *res == self@[self.order()[i as int]],
    {
        proof {
            use_type_invariant(self);
            lemma_entry(self.entries@, i as int);
        }
        &self.entries[i].1
    }

    fn position(&self, key: &K) -> (res: Option<usize>)
        ensures
            match res {
                Some(i) => i < self.entries@.len() && self.entries@[i as int].0@ == key@,
                None => !self.order().contains(key@),
            },
    {
        let mut i: usize = 0;
        while i < self.entries.len()
            invariant
                i <= self.entries@.len(),
                forall|j: int| 0 <= j < i ==> #[trigger] self.order()[j] != key@,
            decreases self.entries@.len() - i,
        {
            if self.entries[i].0.same_key(key) {
                return Some(i);
            }
            assert(self.order()[i as int] == self.entries@[i as int].0@);
            i += 1;
        }
        None
    }

    /// Whether the key has a value.
    pub fn contains(&self, key: &K) -> (res: bool)
        ensures
            res == self@.contains_key(key@),
    {
        self.get(key).is_some()
    }

    /// The value of a key.
    pub fn get(&self, key: &K) -> (res: Option<&T>)
        ensures
            match res {
                Some(value) => self@.contains_key(key@) && *value == self@[key@],
                None => !self@.contains_key(key@),
            },
    {
        proof {
            use_type_invariant(self);
        }
        match self.position(key) {
            Some(i) => {
                proof {
                    lemma_entry(self.entries@, i as int);
                }
                Some(&self.entries[i].1)
            },
            None => None,
        }
    }

    /// Gives the key this value, in place of the one it had.
    pub fn insert(&mut self, key: K, value: T)
        ensures
            final(self)@ == old(self)@.insert(key@, value),
            final(self).order() == if old(self)@.contains_key(key@) {
                old(self).order()
            } else {
                old(self).order().push(key@)
            },
    {
        proof {
            use_type_invariant(&*self);
        }
        let found = self.position(&key);
        let mut entries: Vec<(K, T)> = Vec::new();
        assert(entry_keys(entries@) =~= Seq::<K::V>::empty());
        std::mem::swap(&mut entries, &mut self.entries);
        let ghost before = entries@;
        let ghost keys = entry_keys(before);
        let ghost k = key@;
        match found {
            Some(i) => {
                proof {
                    lemma_entry(before, i as int);
                    assert(keys[i as int] == k);
                }
                entries[i] = (key, value);
                assert(entry_keys(entries@) =~= keys);
                proof {
                    assert forall|q: K::V| keys.contains(q) implies entry_map(entries@)[q]
                        == entry_map(before).insert(k, value)[q] by {
                        let j = keys.index_of(q);
                        assert(keys[j] == q);
                    }
                }
                assert(entry_map(entries@) =~= entry_map(before).insert(k, value));
            },
            None => {
                entries.push((key, value));
                assert(entry_keys(entries@) =~= keys.push(k));
                proof {
                    let after = entry_keys(entries@);
                    assert forall|q: K::V| after.contains(q) <==> (keys.contains(q) || q == k) by {
                        if keys.contains(q) {
                            let j = keys.index_of(q);
                            assert(after[j] == q);
                        }
                        if q == k {
                            assert(after[keys.len() as int] == q);
                        }
                    }
                    assert forall|q: K::V| after.contains(q) implies entry_map(entries@)[q]
                        == entry_map(before).insert(k, value)[q] by {
                        if q == k {
                            lemma_entry(entries@, keys.len() as int);
                        } else {
                            let j = keys.index_of(q);
                            assert(keys[j] == q);
                            lemma_entry(before, j);
                            lemma_entry(entries@, j);
                        }
                    }
                }
                assert(entry_map(entries@) =~= entry_map(before).insert(k, value));
            },
        }
        self.entries = entries;
    }

    /// Gives the key this value where it has none.
    pub fn insert_new(&mut self, key: K, value: T)
        ensures
            final(self)@ == if old(self)@.contains_key(key@) {
                old(self)@
            } else {
                old(self)@.insert(key@, value)
            },
            final(self).order() == if old(self)@.contains_key(key@) {
                old(self).order()
            } else {
                old(self).order().push(key@)
            },
    {
        if !self.contains(&key) {
            self.insert(key, value);
        }
    }

    /// Takes the key and its value out.
    pub fn remove(&mut self, key: &K) -> (res: Option<T>)
        ensures
            final(self)@ == old(self)@.remove(key@),
            match res {
                Some(value) => old(self)@.contains_key(key@) && value == old(self)@[key@],
                None => !old(self)@.contains_key(key@),
            },
            final(self).order() == if old(self)@.contains_key(key@) {
                old(self).order().remove(old(self).order().index_of(key@))
            } else {
                old(self).order()
            },
    {
        proof {
            use_type_invariant(&*self);
        }
        match self.position(key) {
            Some(i) => {
                let mut entries: Vec<(K, T)> = Vec::new();
                assert(entry_keys(entries@) =~= Seq::<K::V>::empty());
                std::mem::swap(&mut entries, &mut self.entries);
                let ghost before = entries@;
                let ghost keys = entry_keys(before);
                proof {
                    lemma_entry(before, i as int);
                    assert(keys[i as int] == key@);
                    assert(keys.index_of(key@) == i);
                }
                let (_, value) = entries.remove(i);
                let ghost after = entry_keys(entries@);
                assert(after =~= keys.remove(i as int));
                proof {
                    assert forall|q: K::V| after.contains(q) <==> (keys.contains(q) && q != key@) by {
                        if after.contains(q) {
                            let j = after.index_of(q);
                            assert(after[j] == q);
                            if j < i {
                                assert(keys[j] == q);
                            } else {
                                assert(keys[j + 1] == q);
                            }
                        }
                        if keys.contains(q) && q != key@ {
                            let j = keys.index_of(q);
                            assert(keys[j] == q);
                            if j < i {
                                assert(after[j] == q);
                            } else {
                                assert(after[j - 1] == q);
                            }
                        }
                    }
                    assert forall|q: K::V| after.contains(q) implies entry_map(entries@)[q]
                        == entry_map(before).remove(key@)[q] by {
                        let j = after.index_of(q);
                        assert(after[j] == q);
                        lemma_entry(entries@, j);
                        if j < i {
                            assert(keys[j] == q);
                            lemma_entry(before, j);
                        } else {
                            assert(keys[j + 1] == q);
                            lemma_entry(before, j + 1);
                        }
                    }
                }
                assert(entry_map(entries@) =~= entry_map(before).remove(key@));
                self.entries = entries;
                Some(value)
            },
            None => {
                assert(self@.remove(key@) =~= self@);
                None
            },
        }
    }
}

impl Clone for Table<String, String> {
    fn clone(&self) -> (res: Self)
        ensures
            res@ == self@,
            res.order() == self.order(),
    {
        proof {
            use_type_invariant(self);
        }
        let mut entries: Vec<(String, String)> = Vec::new();
        let mut i: usize = 0;
        while i < self.entries.len()
            invariant
                i <= self.entries@.len(),
                entries@ == self.entries@.take(i as int),
            decreases self.entries@.len() - i,
        {
            let key = self.entries[i].0.clone();
            let value = self.entries[i].1.clone();
            entries.push((key, value));
            i += 1;
            assert(entries@ =~= self.entries@.take(i as int));
        }
        assert(entries@ =~= self.entries@);
        Table { entries }
    }
}

impl<K: Key, T> Default for Table<K, T> {
    fn default() -> (res: Self)
        ensures
            res@ == Map::<K::V, T>::empty(),
            res.order() == Seq::<K::V>::empty(),
    {
        Table::new()
    }
}

} // verus!
