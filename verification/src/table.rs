//! A small table from keys to values.

use vstd::prelude::*;

verus! {

/// Keys that can be told apart.
pub trait TableKey: Sized {
    /// Whether two keys are the same.
    fn same(&self, other: &Self) -> (result: bool)
        ensures
            result == (*self == *other),
    ;
}

/// A table with at most one value for each key.
pub struct Table<K, V> {
    rows: Vec<(K, V)>,
}

impl<K: TableKey, V> Table<K, V> {
    /// No key has two rows.
    pub closed spec fn wf(&self) -> bool {
        forall|i: int, j: int|
            0 <= i < j < self.rows.len() ==> (#[trigger] self.rows[i]).0 != (
            #[trigger] self.rows[j]).0
    }

    /// The row of `key`.
    spec fn row_of(&self, key: K) -> int {
        choose|i: int| 0 <= i < self.rows.len() && (#[trigger] self.rows[i]).0 == key
    }

    /// Some row is for `key`.
    spec fn has_row(&self, key: K) -> bool {
        exists|i: int| 0 <= i < self.rows.len() && (#[trigger] self.rows[i]).0 == key
    }
}

impl<K: TableKey, V> View for Table<K, V> {
    type V = Map<K, V>;

    closed spec fn view(&self) -> Map<K, V> {
        Map::new(|key: K| self.has_row(key), |key: K| self.rows[self.row_of(key)].1)
    }
}

impl<K: TableKey, V> Table<K, V> {
    /// A table without rows.
    pub fn new() -> (table: Self)
        ensures
            table.wf(),
            table@ == Map::<K, V>::empty(),
    {
        let table = Table { rows: Vec::new() };
        assert(table@ =~= Map::<K, V>::empty());
        table
    }

    /// The position of the row of `key`.
    fn position(&self, key: &K) -> (found: Option<usize>)
        ensures
            match found {
                Some(i) => i < self.rows.len() && self.rows[i as int].0 == *key,
                None => !self.has_row(*key),
            },
    {
        let mut i: usize = 0;
        while i < self.rows.len()
            invariant
                i <= self.rows.len(),
                forall|j: int| 0 <= j < i ==> (#[trigger] self.rows[j]).0 != *key,
            decreases self.rows.len() - i,
        {
            if self.rows[i].0.same(key) {
                return Some(i);
            }
            i += 1;
        }
        None
    }

    /// The value for `key`.
    pub fn get(&self, key: &K) -> (value: Option<&V>)
        requires
            self.wf(),
        ensures
            match value {
                Some(value) => self@.contains_key(*key) && *value == self@[*key],
                None => !self@.contains_key(*key),
            },
    {
        match self.position(key) {
            Some(i) => {
                assert(self.row_of(*key) == i);
                Some(&self.rows[i].1)
            },
            None => None,
        }
    }

    /// Whether `key` has a value.
    pub fn contains_key(&self, key: &K) -> (result: bool)
        ensures
            result == self@.contains_key(*key),
    {
        self.position(key).is_some()
    }

    /// Takes the value for `key` out of the table.
    pub fn remove(&mut self, key: &K) -> (value: Option<V>)
        requires
            old(self).wf(),
        ensures
            final(self).wf(),
            final(self)@ == old(self)@.remove(*key),
            match value {
                Some(value) => old(self)@.contains_key(*key) && value == old(self)@[*key],
                None => !old(self)@.contains_key(*key),
            },
    {
        match self.position(key) {
            Some(i) => {
                let ghost before = *self;
                assert(self.row_of(*key) == i);
                let row = self.rows.swap_remove(i);
                proof {
                    Self::lemma_swap_remove(before, *self, i as int);
                }
                Some(row.1)
            },
            None => {
                assert(self@.remove(*key) =~= self@);
                None
            },
        }
    }

    /// Gives `key` the value `value`, in place of any that it had.
    pub fn insert(&mut self, key: K, value: V)
        requires
            old(self).wf(),
        ensures
            final(self).wf(),
            final(self)@ == old(self)@.insert(key, value),
    {
        self.remove(&key);
        let ghost before = *self;
        self.rows.push((key, value));
        proof {
            Self::lemma_push(before, *self, key, value);
            assert(self@ =~= old(self)@.insert(key, value));
        }
    }

    proof fn lemma_swap_remove(before: Self, after: Self, at: int)
        requires
            before.wf(),
            0 <= at < before.rows.len(),
            after.rows@ == before.rows@.update(at, before.rows@.last()).drop_last(),
        ensures
            after.wf(),
            after@ == before@.remove(before.rows[at].0),
    {
        let key = before.rows[at].0;
        let last = before.rows.len() - 1;
        assert forall|j: int| 0 <= j < after.rows.len() implies #[trigger] after.rows[j]
            == before.rows[if j == at {
            last
        } else {
            j
        }] by {}
        assert(after.wf());
        assert forall|k: K| after@.contains_key(k) == before@.remove(key).contains_key(k) by {
            if after.has_row(k) {
                let j = after.row_of(k);
                let j2 = if j == at {
                    last
                } else {
                    j
                };
                assert(before.rows[j2].0 == k);
            }
            if before.has_row(k) && k != key {
                let i = before.row_of(k);
                let i2 = if i == last {
                    at
                } else {
                    i
                };
                assert(after.rows[i2].0 == k);
            }
        }
        assert forall|k: K| after@.contains_key(k) implies after@[k] == before@[k] by {
            let j = after.row_of(k);
            let j2 = if j == at {
                last
            } else {
                j
            };
            assert(before.rows[j2].0 == k);
            assert(before.row_of(k) == j2);
        }
        assert(after@ =~= before@.remove(key));
    }

    proof fn lemma_push(before: Self, after: Self, key: K, value: V)
        requires
            before.wf(),
            !before@.contains_key(key),
            after.rows@ == before.rows@.push((key, value)),
        ensures
            after.wf(),
            after@ == before@.insert(key, value),
    {
        let n = before.rows.len() as int;
        assert forall|j: int| 0 <= j < n implies #[trigger] after.rows[j] == before.rows[j] by {}
        assert(after.rows[n] == (key, value));
        assert forall|j: int| 0 <= j < n implies (#[trigger] before.rows[j]).0 != key by {
            assert(!before.has_row(key));
        }
        assert(after.wf());
        assert forall|k: K| after@.contains_key(k) == before@.insert(key, value).contains_key(k) by {
            if before.has_row(k) {
                assert(after.rows[before.row_of(k)].0 == k);
            }
            if after.has_row(k) && k != key {
                assert(before.rows[after.row_of(k)].0 == k);
            }
        }
        assert forall|k: K| after@.contains_key(k) implies after@[k] == before@.insert(
            key,
            value,
        )[k] by {
            let j = after.row_of(k);
            if k != key {
                assert(before.rows[j].0 == k);
                assert(before.row_of(k) == j);
            }
        }
        assert(after@ =~= before@.insert(key, value));
    }
}

} // verus!
