//! A small map from identifiers to values that keeps its entries in the order
//! in which their keys were first inserted.

use vstd::prelude::*;
use crate::entity::Entity;

verus! {

/// The entries of a table, in order.
pub type Entries<V> = Seq<(Entity, V)>;

/// Whether `key` has an entry.
pub open spec fn entries_has<V>(s: Entries<V>, key: Entity) -> bool {
    exists|i: int| 0 <= i < s.len() && (#[trigger] s[i]).0 == key
}

/// No key occurs twice.
pub open spec fn entries_unique<V>(s: Entries<V>) -> bool {
    forall|i: int, j: int| 0 <= i < j < s.len() ==> (#[trigger] s[i]).0 != (#[trigger] s[j]).0
}

/// A position at which `key` stands, where it has an entry.
pub open spec fn entries_index<V>(s: Entries<V>, key: Entity) -> int {
    choose|i: int| 0 <= i < s.len() && (#[trigger] s[i]).0 == key
}

/// The value of `key`, where it has an entry.
pub open spec fn entries_get<V>(s: Entries<V>, key: Entity) -> Option<V> {
    if entries_has(s, key) {
        Some(s[entries_index(s, key)].1)
    } else {
        None
    }
}

/// The entries after `key` was given `value`: a new key goes to the end, a
/// known one keeps its place and takes the new value.
pub open spec fn entries_insert<V>(s: Entries<V>, key: Entity, value: V) -> Entries<V> {
    if entries_has(s, key) {
        s.update(entries_index(s, key), (key, value))
    } else {
        s.push((key, value))
    }
}

/// The entries after `key` was taken out; the others keep their order.
pub open spec fn entries_remove<V>(s: Entries<V>, key: Entity) -> Entries<V> {
    if entries_has(s, key) {
        s.remove(entries_index(s, key))
    } else {
        s
    }
}

/// Where no key occurs twice the position of a key is determined.
pub proof fn lemma_entries_index_unique<V>(s: Entries<V>, key: Entity, i: int)
    requires
        entries_unique(s),
        0 <= i < s.len(),
        s[i].0 == key,
    ensures
        entries_has(s, key),
        entries_index(s, key) == i,
{
    let j = entries_index(s, key);
    assert(0 <= j < s.len() && s[j].0 == key);
    if j < i {
        assert(s[j].0 != s[i].0);
    } else if i < j {
        assert(s[i].0 != s[j].0);
    }
}

/// Inserting keeps the keys free of repetition, gives `key` an entry and
/// changes nothing for the other keys.
pub proof fn lemma_entries_insert<V>(s: Entries<V>, key: Entity, value: V)
    requires
        entries_unique(s),
    ensures
        entries_unique(entries_insert(s, key, value)),
        entries_has(entries_insert(s, key, value), key),
        entries_insert(s, key, value).len() > 0,
        entries_get(entries_insert(s, key, value), key) == Some(value),
        forall|other: Entity|
            other != key ==> (#[trigger] entries_has(
                entries_insert(s, key, value),
                other,
            ) <==> entries_has(s, other)),
        forall|other: Entity|
            other != key ==> #[trigger] entries_get(entries_insert(s, key, value), other)
                == entries_get(s, other),
{
    let t = entries_insert(s, key, value);
    if entries_has(s, key) {
        let k = entries_index(s, key);
        assert(0 <= k < s.len() && s[k].0 == key);
        assert(t[k].0 == key);
        assert forall|i: int, j: int| 0 <= i < j < t.len() implies (#[trigger] t[i]).0 != (
        #[trigger] t[j]).0 by {
            assert(s[i].0 != s[j].0);
        }
        lemma_entries_index_unique(t, key, k);
        assert forall|other: Entity| other != key implies (#[trigger] entries_has(t, other)
            <==> entries_has(s, other)) by {
            if entries_has(t, other) {
                let i = choose|i: int| 0 <= i < t.len() && (#[trigger] t[i]).0 == other;
                assert(s[i].0 == other);
            }
            if entries_has(s, other) {
                let i = choose|i: int| 0 <= i < s.len() && (#[trigger] s[i]).0 == other;
                assert(t[i].0 == other);
            }
        }
        assert forall|other: Entity| other != key implies #[trigger] entries_get(t, other)
            == entries_get(s, other) by {
            if entries_has(s, other) {
                let i = entries_index(s, other);
                assert(0 <= i < s.len() && s[i].0 == other);
                assert(t[i] == s[i]);
                lemma_entries_index_unique(t, other, i);
            }
        }
    } else {
        assert(t[s.len() as int].0 == key);
        assert forall|i: int, j: int| 0 <= i < j < t.len() implies (#[trigger] t[i]).0 != (
        #[trigger] t[j]).0 by {
            if j < s.len() {
                assert(s[i].0 != s[j].0);
            } else {
                assert(t[i] == s[i]);
            }
        }
        lemma_entries_index_unique(t, key, s.len() as int);
        assert forall|other: Entity| other != key implies (#[trigger] entries_has(t, other)
            <==> entries_has(s, other)) by {
            if entries_has(t, other) {
                let i = choose|i: int| 0 <= i < t.len() && (#[trigger] t[i]).0 == other;
                assert(s[i].0 == other);
            }
            if entries_has(s, other) {
                let i = choose|i: int| 0 <= i < s.len() && (#[trigger] s[i]).0 == other;
                assert(t[i].0 == other);
            }
        }
        assert forall|other: Entity| other != key implies #[trigger] entries_get(t, other)
            == entries_get(s, other) by {
            if entries_has(s, other) {
                let i = entries_index(s, other);
                assert(0 <= i < s.len() && s[i].0 == other);
                assert(t[i] == s[i]);
                lemma_entries_index_unique(t, other, i);
            }
        }
    }
}

/// Removing keeps the keys free of repetition, leaves no entry of `key` and
/// changes nothing for the other keys.
pub proof fn lemma_entries_remove<V>(s: Entries<V>, key: Entity)
    requires
        entries_unique(s),
    ensures
        entries_unique(entries_remove(s, key)),
        !entries_has(entries_remove(s, key), key),
        forall|other: Entity|
            other != key ==> (#[trigger] entries_has(entries_remove(s, key), other)
                <==> entries_has(s, other)),
        forall|other: Entity|
            other != key ==> #[trigger] entries_get(entries_remove(s, key), other) == entries_get(
                s,
                other,
            ),
{
    let t = entries_remove(s, key);
    if entries_has(s, key) {
        let k = entries_index(s, key);
        assert(0 <= k < s.len() && s[k].0 == key);
        assert forall|i: int| 0 <= i < t.len() implies #[trigger] t[i] == s[if i < k {
            i
        } else {
            i + 1
        }] by {}
        assert forall|i: int, j: int| 0 <= i < j < t.len() implies (#[trigger] t[i]).0 != (
        #[trigger] t[j]).0 by {
            let si = if i < k { i } else { i + 1 };
            let sj = if j < k { j } else { j + 1 };
            assert(t[i] == s[si] && t[j] == s[sj]);
            assert(s[si].0 != s[sj].0);
        }
        if entries_has(t, key) {
            let i = choose|i: int| 0 <= i < t.len() && (#[trigger] t[i]).0 == key;
            let si = if i < k { i } else { i + 1 };
            assert(t[i] == s[si]);
            if si < k {
                assert(s[si].0 != s[k].0);
            } else {
                assert(s[k].0 != s[si].0);
            }
        }
        assert forall|other: Entity| other != key implies (#[trigger] entries_has(t, other)
            <==> entries_has(s, other)) by {
            if entries_has(t, other) {
                let i = choose|i: int| 0 <= i < t.len() && (#[trigger] t[i]).0 == other;
                let si = if i < k { i } else { i + 1 };
                assert(t[i] == s[si]);
                assert(s[si].0 == other);
            }
            if entries_has(s, other) {
                let i = choose|i: int| 0 <= i < s.len() && (#[trigger] s[i]).0 == other;
                let ti = if i < k { i } else { i - 1 };
                assert(t[ti] == s[i]);
                assert(t[ti].0 == other);
            }
        }
        assert forall|other: Entity| other != key implies #[trigger] entries_get(t, other)
            == entries_get(s, other) by {
            if entries_has(s, other) {
                let i = entries_index(s, other);
                assert(0 <= i < s.len() && s[i].0 == other);
                let ti = if i < k { i } else { i - 1 };
                assert(t[ti] == s[i]);
                lemma_entries_index_unique(t, other, ti);
            }
        }
    }
}

/// The keys of the entries, in order.
pub open spec fn entries_keys<V>(s: Entries<V>) -> Seq<Entity> {
    Seq::new(s.len(), |i: int| s[i].0)
}

/// The entries with `f` applied to each value.
pub open spec fn entries_map<V, W>(s: Entries<V>, f: spec_fn(V) -> W) -> Entries<W> {
    Seq::new(s.len(), |i: int| (s[i].0, f(s[i].1)))
}

/// Applying a function to the values changes nothing about the keys, and
/// goes through insertion and removal.
pub proof fn lemma_entries_map<V, W>(s: Entries<V>, f: spec_fn(V) -> W, key: Entity)
    requires
        entries_unique(s),
    ensures
        entries_unique(entries_map(s, f)),
        entries_has(entries_map(s, f), key) == entries_has(s, key),
        entries_has(s, key) ==> entries_index(entries_map(s, f), key) == entries_index(s, key),
        entries_get(entries_map(s, f), key) == match entries_get(s, key) {
            Some(value) => Some(f(value)),
            None => None,
        },
        entries_remove(entries_map(s, f), key) == entries_map(entries_remove(s, key), f),
        entries_keys(entries_map(s, f)) == entries_keys(s),
{
    let t = entries_map(s, f);
    assert forall|i: int, j: int| 0 <= i < j < t.len() implies (#[trigger] t[i]).0 != (
    #[trigger] t[j]).0 by {
        assert(s[i].0 != s[j].0);
    }
    if entries_has(s, key) {
        let i = entries_index(s, key);
        assert(0 <= i < s.len() && s[i].0 == key);
        assert(t[i].0 == key);
        lemma_entries_index_unique(t, key, i);
        assert(entries_remove(t, key) =~= entries_map(entries_remove(s, key), f));
    }
    if entries_has(t, key) {
        let i = choose|i: int| 0 <= i < t.len() && (#[trigger] t[i]).0 == key;
        assert(s[i].0 == key);
    }
    assert(entries_keys(t) =~= entries_keys(s));
}

/// Applying a function to the values goes through insertion.
pub proof fn lemma_entries_map_insert<V, W>(s: Entries<V>, f: spec_fn(V) -> W, key: Entity, value: V)
    requires
        entries_unique(s),
    ensures
        entries_insert(entries_map(s, f), key, f(value)) == entries_map(
            entries_insert(s, key, value),
            f,
        ),
{
    lemma_entries_map(s, f, key);
    assert(entries_insert(entries_map(s, f), key, f(value)) =~= entries_map(
        entries_insert(s, key, value),
        f,
    ));
}

/// A key is among the keys exactly if it has an entry.
pub proof fn lemma_entries_keys<V>(s: Entries<V>, key: Entity)
    ensures
        entries_keys(s).contains(key) == entries_has(s, key),
        entries_unique(s) ==> entries_keys(s).no_duplicates(),
{
    let keys = entries_keys(s);
    if keys.contains(key) {
        let i = choose|i: int| 0 <= i < keys.len() && keys[i] == key;
        assert(s[i].0 == key);
    }
    if entries_has(s, key) {
        let i = choose|i: int| 0 <= i < s.len() && (#[trigger] s[i]).0 == key;
        assert(keys[i] == key);
    }
    if entries_unique(s) {
        assert forall|i: int, j: int| 0 <= i < keys.len() && 0 <= j < keys.len() && i != j implies keys[i]
            != keys[j] by {
            if i < j {
                assert(s[i].0 != s[j].0);
            } else {
                assert(s[j].0 != s[i].0);
            }
        }
    }
}

/// A map from identifiers to values that hands its entries out in the order in
/// which their keys were first inserted.
pub struct Table<V> {
    entries: Vec<(Entity, V)>,
}

impl<V> View for Table<V> {
    type V = Entries<V>;

    closed spec fn view(&self) -> Entries<V> {
        self.entries@
    }
}

impl<V> Table<V> {
    /// No key occurs twice.
    pub open spec fn wf(&self) -> bool {
        entries_unique(self@)
    }

    /// A table without entries.
    pub fn new() -> (t: Table<V>)
        ensures
            t@ == Entries::<V>::empty(),
            t.wf(),
    {
        Table { entries: Vec::new() }
    }

    /// Number of entries.
    pub fn len(&self) -> (n: usize)
        ensures
            n == self@.len(),
    {
        self.entries.len()
    }

    /// Whether the table has no entry.
    pub fn is_empty(&self) -> (b: bool)
        ensures
            b == (self@.len() == 0),
    {
        self.entries.len() == 0
    }

    /// The entry at position `i`.
    pub fn entry(&self, i: usize) -> (e: &(Entity, V))
        requires
            i < self@.len(),
        ensures
            *e == self@[i as int],
    {
        &self.entries[i]
    }

    /// The keys, in order.
    pub fn keys(&self) -> (keys: Vec<Entity>)
        ensures
            keys@ == entries_keys(self@),
    {
        let mut keys: Vec<Entity> = Vec::new();
        let mut i: usize = 0;
        while i < self.entries.len()
            invariant
                i <= self.entries.len(),
                keys@ == entries_keys(self@.take(i as int)),
            decreases self.entries.len() - i,
        {
            keys.push(self.entries[i].0);
            proof {
                assert(keys@ =~= entries_keys(self@.take(i + 1)));
            }
            i = i + 1;
        }
        proof {
            assert(self@.take(self.entries.len() as int) =~= self@);
        }
        keys
    }

    /// The position of `key`, if it has an entry.
    pub fn position(&self, key: Entity) -> (r: Option<usize>)
        requires
            self.wf(),
        ensures
            r.is_some() == entries_has(self@, key),
            r.is_some() ==> r.unwrap() == entries_index(self@, key),
    {
        let mut i: usize = 0;
        while i < self.entries.len()
            invariant
                self.wf(),
                i <= self.entries.len(),
                forall|j: int| 0 <= j < i ==> (#[trigger] self@[j]).0 != key,
            decreases self.entries.len() - i,
        {
            if self.entries[i].0 == key {
                proof {
                    lemma_entries_index_unique(self@, key, i as int);
                }
                return Some(i);
            }
            i = i + 1;
        }
        None
    }

    /// Whether `key` has an entry.
    pub fn contains(&self, key: Entity) -> (b: bool)
        requires
            self.wf(),
        ensures
            b == entries_has(self@, key),
    {
        self.position(key).is_some()
    }

    /// The value of `key`.
    pub fn get(&self, key: Entity) -> (r: Option<&V>)
        requires
            self.wf(),
        ensures
            r.is_some() == entries_has(self@, key),
            r.is_some() ==> Some(*r.unwrap()) == entries_get(self@, key),
    {
        match self.position(key) {
            Some(i) => Some(&self.entries[i].1),
            None => None,
        }
    }

    /// The value of `key`, to be changed in place.
    pub fn get_mut(&mut self, key: Entity) -> (r: Option<&mut V>)
        requires
            old(self).wf(),
        ensures
            final(self).wf(),
            match r {
                Some(v) => entries_has(old(self)@, key) && *v == old(self)@[entries_index(
                    old(self)@,
                    key,
                )].1 && final(self)@ == old(self)@.update(
                    entries_index(old(self)@, key),
                    (key, *final(v)),
                ),
                None => !entries_has(old(self)@, key) && final(self)@ == old(self)@,
            },
    {
        match self.position(key) {
            Some(i) => Some(&mut self.entries[i].1),
            None => None,
        }
    }

    /// Gives `key` the value `value` and returns the value that it had
    /// before, if any.
    pub fn insert(&mut self, key: Entity, value: V) -> (previous: Option<V>)
        requires
            old(self).wf(),
        ensures
            final(self)@ == entries_insert(old(self)@, key, value),
            final(self).wf(),
            previous == entries_get(old(self)@, key),
    {
        proof {
            lemma_entries_insert(self@, key, value);
        }
        match self.position(key) {
            Some(i) => {
                let mut swapped = value;
                core::mem::swap(&mut self.entries[i].1, &mut swapped);
                assert(self@ =~= entries_insert(old(self)@, key, value));
                Some(swapped)
            },
            None => {
                self.entries.push((key, value));
                None
            },
        }
    }

    /// Takes `key` out and returns the value that it had, if any.
    pub fn remove(&mut self, key: Entity) -> (previous: Option<V>)
        requires
            old(self).wf(),
        ensures
            final(self)@ == entries_remove(old(self)@, key),
            final(self).wf(),
            previous == entries_get(old(self)@, key),
    {
        proof {
            lemma_entries_remove(self@, key);
        }
        match self.position(key) {
            Some(i) => {
                let removed = self.entries.remove(i);
                Some(removed.1)
            },
            None => None,
        }
    }
}

} // verus!
