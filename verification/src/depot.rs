//! A string-keyed store of per-request data, shared by the handlers of one
//! request.  Keys are unique; writing under an existing key replaces the old
//! value.  The store is viewed as a mathematical map from key characters to
//! stored values.

use vstd::prelude::*;

verus! {

/// The map denoted by parallel key and value columns: entries are added left
/// to right, so a later column wins over an earlier one with the same key.
pub open spec fn map_of<V>(keys: Seq<String>, vals: Seq<V>) -> Map<Seq<char>, V>
    decreases keys.len(),
{
    if keys.len() == 0 || vals.len() == 0 {
        Map::empty()
    } else {
        map_of(keys.drop_last(), vals.drop_last()).insert(keys.last()@, vals.last())
    }
}

/// No two keys read the same.
pub open spec fn keys_unique(keys: Seq<String>) -> bool {
    forall|i: int, j: int|
        0 <= i < j < keys.len() ==> (#[trigger] keys[i])@ != (#[trigger] keys[j])@
}

/// A key is in the map exactly when some column holds it.
proof fn lemma_map_of_dom<V>(keys: Seq<String>, vals: Seq<V>, k: Seq<char>)
    requires
        keys.len() == vals.len(),
    ensures
        map_of(keys, vals).dom().contains(k) <==> (exists|i: int|
            0 <= i < keys.len() && (#[trigger] keys[i])@ == k),
    decreases keys.len(),
{
    if keys.len() > 0 {
        lemma_map_of_dom(keys.drop_last(), vals.drop_last(), k);
        if keys.last()@ == k {
            assert(keys[keys.len() - 1]@ == k);
        } else {
            if map_of(keys, vals).dom().contains(k) {
                let i = choose|i: int| 0 <= i < keys.len() - 1 && (#[trigger] keys.drop_last()[i])@
                    == k;
                assert(keys[i]@ == k);
            }
            if exists|i: int| 0 <= i < keys.len() && (#[trigger] keys[i])@ == k {
                let i = choose|i: int| 0 <= i < keys.len() && (#[trigger] keys[i])@ == k;
                assert(keys.drop_last()[i]@ == k);
            }
        }
    }
}

/// With unique keys, the map sends each key to the value in its column.
proof fn lemma_map_of_index<V>(keys: Seq<String>, vals: Seq<V>, i: int)
    requires
        keys.len() == vals.len(),
        keys_unique(keys),
        0 <= i < keys.len(),
    ensures
        map_of(keys, vals).dom().contains(keys[i]@),
        map_of(keys, vals)[keys[i]@] == vals[i],
    decreases keys.len(),
{
    if i == keys.len() - 1 {
    } else {
        lemma_map_of_index(keys.drop_last(), vals.drop_last(), i);
        assert(keys[i]@ != keys.last()@);
    }
}

/// Replacing the value in column `j` is, on the map side, an insert.
proof fn lemma_map_of_update<V>(keys: Seq<String>, vals: Seq<V>, j: int, v: V)
    requires
        keys.len() == vals.len(),
        keys_unique(keys),
        0 <= j < keys.len(),
    ensures
        map_of(keys, vals.update(j, v)) =~= map_of(keys, vals).insert(keys[j]@, v),
    decreases keys.len(),
{
    let n = keys.len();
    if j == n - 1 {
        assert(vals.update(j, v).drop_last() =~= vals.drop_last());
        assert(vals.update(j, v).last() == v);
    } else {
        assert(vals.update(j, v).drop_last() =~= vals.drop_last().update(j, v));
        assert(vals.update(j, v).last() == vals.last());
        lemma_map_of_update(keys.drop_last(), vals.drop_last(), j, v);
        assert(keys[j]@ != keys.last()@);
        assert(map_of(keys.drop_last(), vals.drop_last()).insert(keys[j]@, v).insert(
            keys.last()@,
            vals.last(),
        ) =~= map_of(keys.drop_last(), vals.drop_last()).insert(keys.last()@, vals.last()).insert(
            keys[j]@,
            v,
        ));
    }
}

/// Dropping column `j` is, on the map side, a remove.
proof fn lemma_map_of_remove<V>(keys: Seq<String>, vals: Seq<V>, j: int)
    requires
        keys.len() == vals.len(),
        keys_unique(keys),
        0 <= j < keys.len(),
    ensures
        map_of(keys.remove(j), vals.remove(j)) =~= map_of(keys, vals).remove(keys[j]@),
    decreases keys.len(),
{
    let n = keys.len();
    if j == n - 1 {
        assert(keys.remove(j) =~= keys.drop_last());
        assert(vals.remove(j) =~= vals.drop_last());
        lemma_map_of_dom(keys.drop_last(), vals.drop_last(), keys[j]@);
        assert(forall|i: int|
            0 <= i < keys.len() - 1 ==> (#[trigger] keys.drop_last()[i])@ != keys[j]@);
        assert(map_of(keys.drop_last(), vals.drop_last()) =~= map_of(
            keys,
            vals,
        ).remove(keys[j]@));
    } else {
        assert(keys.remove(j).drop_last() =~= keys.drop_last().remove(j));
        assert(vals.remove(j).drop_last() =~= vals.drop_last().remove(j));
        assert(keys.remove(j).last() == keys.last());
        assert(vals.remove(j).last() == vals.last());
        lemma_map_of_remove(keys.drop_last(), vals.drop_last(), j);
        assert(keys[j]@ != keys.last()@);
        assert(map_of(keys.drop_last(), vals.drop_last()).remove(keys[j]@).insert(
            keys.last()@,
            vals.last(),
        ) =~= map_of(keys.drop_last(), vals.drop_last()).insert(keys.last()@, vals.last()).remove(
            keys[j]@,
        ));
    }
}

/// Per-request storage: a last-write-wins map from string keys to values.
pub struct Depot<V> {
    keys: Vec<String>,
    values: Vec<V>,
    cap: usize,
}

impl<V> View for Depot<V> {
    type V = Map<Seq<char>, V>;

    closed spec fn view(&self) -> Map<Seq<char>, V> {
        map_of(self.keys@, self.values@)
    }
}

impl<V> Depot<V> {
    /// Columns are aligned and keys are unique.
    pub closed spec fn well_formed(&self) -> bool {
        self.keys@.len() == self.values@.len() && keys_unique(self.keys@)
    }

    /// The least number of entries the store has promised room for.
    pub closed spec fn spec_capacity(&self) -> nat {
        if self.cap >= self.keys@.len() {
            self.cap as nat
        } else {
            self.keys@.len()
        }
    }

    /// An empty store.
    pub fn new() -> (d: Depot<V>)
        ensures
            d@ == Map::<Seq<char>, V>::empty(),
            d.well_formed(),
    {
        Depot { keys: Vec::new(), values: Vec::new(), cap: 0 }
    }

    /// An empty store with room promised for `capacity` entries.
    pub fn with_capacity(capacity: usize) -> (d: Depot<V>)
        ensures
            d@ == Map::<Seq<char>, V>::empty(),
            d.well_formed(),
            d.spec_capacity() >= capacity,
    {
        Depot { keys: Vec::with_capacity(capacity), values: Vec::with_capacity(capacity), cap: capacity }
    }

    /// How many entries the store has room for: never less than what was
    /// promised at construction, nor than what it now holds.
    pub fn capacity(&self) -> (c: usize)
        ensures
            c == self.spec_capacity(),
    {
        if self.cap >= self.keys.len() {
            self.cap
        } else {
            self.keys.len()
        }
    }

    /// The column holding `key`, if any.
    fn find(&self, key: &str) -> (r: Option<usize>)
        requires
            self.well_formed(),
        ensures
            match r {
                Some(j) => j < self.keys@.len() && self.keys@[j as int]@ == key@,
                None => forall|i: int|
                    0 <= i < self.keys@.len() ==> (#[trigger] self.keys@[i])@ != key@,
            },
    {
        let n = self.keys.len();
        let mut i: usize = 0;
        while i < n
            invariant
                0 <= i <= n,
                n == self.keys@.len(),
                forall|l: int| 0 <= l < i ==> (#[trigger] self.keys@[l])@ != key@,
            decreases n - i,
        {
            if crate::text::str_eq(self.keys[i].as_str(), key) {
                return Some(i);
            }
            i = i + 1;
        }
        None
    }

    /// Stores `value` under `key`; an old value under the same key is gone.
    pub fn insert(&mut self, key: &str, value: V)
        requires
            old(self).well_formed(),
        ensures
            final(self).well_formed(),
            final(self)@ == old(self)@.insert(key@, value),
    {
        match self.find(key) {
            Some(j) => {
                self.values[j] = value;
                proof {
                    lemma_map_of_update(self.keys@, old(self).values@, j as int, value);
                }
            },
            None => {
                self.keys.push(key.to_owned());
                self.values.push(value);
                proof {
                    assert(self.keys@.drop_last() =~= old(self).keys@);
                    assert(self.values@.drop_last() =~= old(self).values@);
                }
            },
        }
    }

    /// Whether a value is stored under `key`.
    pub fn contains_key(&self, key: &str) -> (r: bool)
        requires
            self.well_formed(),
        ensures
            r == self@.dom().contains(key@),
    {
        proof {
            lemma_map_of_dom(self.keys@, self.values@, key@);
        }
        match self.find(key) {
            Some(j) => true,
            None => false,
        }
    }

    /// The value stored under `key`, if any.
    pub fn get(&self, key: &str) -> (r: Option<&V>)
        requires
            self.well_formed(),
        ensures
            match r {
                Some(v) => self@.dom().contains(key@) && *v == self@[key@],
                None => !self@.dom().contains(key@),
            },
    {
        proof {
            lemma_map_of_dom(self.keys@, self.values@, key@);
        }
        match self.find(key) {
            Some(j) => {
                proof {
                    lemma_map_of_index(self.keys@, self.values@, j as int);
                }
                Some(&self.values[j])
            },
            None => None,
        }
    }

    /// Mutable access to the value stored under `key`, if any.  What the
    /// caller writes through the reference is what the store then holds.
    pub fn get_mut(&mut self, key: &str) -> (r: Option<&mut V>)
        requires
            old(self).well_formed(),
        ensures
            final(self).well_formed(),
            match r {
                Some(v) => old(self)@.dom().contains(key@) && *v == old(self)@[key@]
                    && final(self)@ == old(self)@.insert(key@, *final(v)),
                None => !old(self)@.dom().contains(key@)
                    && *final(self) == *old(self),
            },
    {
        proof {
            lemma_map_of_dom(self.keys@, self.values@, key@);
        }
        match self.find(key) {
            Some(j) => {
                proof {
                    lemma_map_of_index(self.keys@, self.values@, j as int);
                    lemma_map_of_update(self.keys@, self.values@, j as int, self.values@[j as int]);
                }
                let ghost jj = j as int;
                let m = &mut self.values[j];
                proof {
                    lemma_map_of_update(self.keys@, old(self).values@, jj, *final(m));
                }
                Some(m)
            },
            None => None,
        }
    }

    /// Takes the value stored under `key` out of the store.
    pub fn remove(&mut self, key: &str) -> (r: Option<V>)
        requires
            old(self).well_formed(),
        ensures
            final(self).well_formed(),
            final(self)@ == old(self)@.remove(key@),
            match r {
                Some(v) => old(self)@.dom().contains(key@) && v == old(self)@[key@],
                None => !old(self)@.dom().contains(key@),
            },
    {
        proof {
            lemma_map_of_dom(self.keys@, self.values@, key@);
        }
        match self.find(key) {
            Some(j) => {
                proof {
                    lemma_map_of_index(self.keys@, self.values@, j as int);
                    lemma_map_of_remove(self.keys@, self.values@, j as int);
                }
                let _k = self.keys.remove(j);
                let v = self.values.remove(j);
                Some(v)
            },
            None => {
                proof {
                    assert(old(self)@ =~= old(self)@.remove(key@));
                }
                None
            },
        }
    }

    /// Moves every entry into a fresh store, leaving this one empty.
    pub fn transfer(&mut self) -> (d: Depot<V>)
        requires
            old(self).well_formed(),
        ensures
            final(self).well_formed(),
            d.well_formed(),
            d@ == old(self)@,
            final(self)@ == Map::<Seq<char>, V>::empty(),
    {
        let mut keys: Vec<String> = Vec::new();
        let mut values: Vec<V> = Vec::new();
        core::mem::swap(&mut keys, &mut self.keys);
        core::mem::swap(&mut values, &mut self.values);
        Depot { keys, values, cap: self.cap }
    }
}

} // verus!
