//! The hash maps of the observer cache. The maps themselves are those of
//! `bevy_utils`, which are `hashbrown` maps with a hasher of its choosing;
//! what this module states about them is believed, not proved.
//!
//! Keys are identifiers in their integer form. A `u64` is the one kind of key
//! that the hasher of `EntityHashMap` takes; it refuses any other by
//! panicking. None of the maps is ever walked, so nothing here depends on the
//! order in which a hash map hands out its entries.

use vstd::prelude::*;
use bevy_utils::{EntityHashMap, HashMap};
use crate::listeners::ObserverMap;
use crate::observer::{CachedComponentObservers, CachedObservers};

verus! {

/// Listener buckets by target row, in an `EntityHashMap`.
#[verifier::external_body]
pub struct TargetMaps {
    inner: EntityHashMap<u64, ObserverMap>,
}

/// The entries that a `TargetMaps` holds.
pub uninterp spec fn target_entries(m: TargetMaps) -> Map<u64, ObserverMap>;

/// Listeners by component, in a `HashMap`.
#[verifier::external_body]
pub struct ComponentMaps {
    inner: HashMap<u64, CachedComponentObservers>,
}

/// The entries that a `ComponentMaps` holds.
pub uninterp spec fn component_entries(m: ComponentMaps) -> Map<u64, CachedComponentObservers>;

/// Listeners by signal kind, in a `HashMap`.
#[verifier::external_body]
pub struct SignalMaps {
    inner: HashMap<u64, CachedObservers>,
}

/// The entries that a `SignalMaps` holds.
pub uninterp spec fn signal_entries(m: SignalMaps) -> Map<u64, CachedObservers>;

impl TargetMaps {
    /// `hashbrown::HashMap::default`: a map without entries.
    #[verifier::external_body]
    pub(crate) fn new() -> (m: TargetMaps)
        ensures
            target_entries(m) == (Map::<u64, ObserverMap>::empty()),
    {
        TargetMaps { inner: EntityHashMap::default() }
    }

    /// `hashbrown::HashMap::is_empty`: whether the map has no entry.
    #[verifier::external_body]
    pub(crate) fn no_entries(&self) -> (b: bool)
        ensures
            b == target_entries(*self).is_empty(),
    {
        self.inner.is_empty()
    }

    /// `hashbrown::HashMap::get`: the value under `key`, if there is one.
    #[verifier::external_body]
    pub(crate) fn get(&self, key: u64) -> (r: Option<&ObserverMap>)
        ensures
            r.is_some() == target_entries(*self).contains_key(key),
            r.is_some() ==> *r.unwrap() == target_entries(*self)[key],
    {
        self.inner.get(&key)
    }

    /// `hashbrown::HashMap::get_mut`: the value under `key`, if there is one,
    /// to be changed in place; nothing else in the map changes.
    #[verifier::external_body]
    pub(crate) fn get_mut(&mut self, key: u64) -> (r: Option<&mut ObserverMap>)
        ensures
            match r {
                Some(value) => target_entries(*old(self)).contains_key(key) && *value == target_entries(
                    *old(self),
                )[key] && target_entries(*final(self)) == target_entries(*old(self)).insert(
                    key,
                    *final(value),
                ),
                None => !target_entries(*old(self)).contains_key(key) && target_entries(*final(self))
                    == target_entries(*old(self)),
            },
    {
        self.inner.get_mut(&key)
    }

    /// `hashbrown::HashMap::insert`: afterwards `key` has the value `value`,
    /// whether or not it had one before.
    #[verifier::external_body]
    pub(crate) fn insert(&mut self, key: u64, value: ObserverMap)
        ensures
            target_entries(*final(self)) == target_entries(*old(self)).insert(key, value),
    {
        self.inner.insert(key, value);
    }

    /// `hashbrown::HashMap::remove`: afterwards `key` has no value.
    #[verifier::external_body]
    pub(crate) fn remove(&mut self, key: u64)
        ensures
            target_entries(*final(self)) == target_entries(*old(self)).remove(key),
    {
        self.inner.remove(&key);
    }
}

impl ComponentMaps {
    /// `hashbrown::HashMap::default`: a map without entries.
    #[verifier::external_body]
    pub(crate) fn new() -> (m: ComponentMaps)
        ensures
            component_entries(m) == (Map::<u64, CachedComponentObservers>::empty()),
    {
        ComponentMaps { inner: HashMap::default() }
    }

    /// `hashbrown::HashMap::get`: the value under `key`, if there is one.
    #[verifier::external_body]
    pub(crate) fn get(&self, key: u64) -> (r: Option<&CachedComponentObservers>)
        ensures
            r.is_some() == component_entries(*self).contains_key(key),
            r.is_some() ==> *r.unwrap() == component_entries(*self)[key],
    {
        self.inner.get(&key)
    }

    /// `hashbrown::HashMap::get_mut`: the value under `key`, if there is one,
    /// to be changed in place; nothing else in the map changes.
    #[verifier::external_body]
    pub(crate) fn get_mut(&mut self, key: u64) -> (r: Option<&mut CachedComponentObservers>)
        ensures
            match r {
                Some(value) => component_entries(*old(self)).contains_key(key) && *value == component_entries(
                    *old(self),
                )[key] && component_entries(*final(self)) == component_entries(*old(self)).insert(
                    key,
                    *final(value),
                ),
                None => !component_entries(*old(self)).contains_key(key) && component_entries(*final(self))
                    == component_entries(*old(self)),
            },
    {
        self.inner.get_mut(&key)
    }

    /// `hashbrown::HashMap::insert`: afterwards `key` has the value `value`,
    /// whether or not it had one before.
    #[verifier::external_body]
    pub(crate) fn insert(&mut self, key: u64, value: CachedComponentObservers)
        ensures
            component_entries(*final(self)) == component_entries(*old(self)).insert(key, value),
    {
        self.inner.insert(key, value);
    }

    /// `hashbrown::HashMap::remove`: afterwards `key` has no value.
    #[verifier::external_body]
    pub(crate) fn remove(&mut self, key: u64)
        ensures
            component_entries(*final(self)) == component_entries(*old(self)).remove(key),
    {
        self.inner.remove(&key);
    }
}

impl SignalMaps {
    /// `hashbrown::HashMap::default`: a map without entries.
    #[verifier::external_body]
    pub(crate) fn new() -> (m: SignalMaps)
        ensures
            signal_entries(m) == (Map::<u64, CachedObservers>::empty()),
    {
        SignalMaps { inner: HashMap::default() }
    }

    /// `hashbrown::HashMap::get`: the value under `key`, if there is one.
    #[verifier::external_body]
    pub(crate) fn get(&self, key: u64) -> (r: Option<&CachedObservers>)
        ensures
            r.is_some() == signal_entries(*self).contains_key(key),
            r.is_some() ==> *r.unwrap() == signal_entries(*self)[key],
    {
        self.inner.get(&key)
    }

    /// `hashbrown::HashMap::get_mut`: the value under `key`, if there is one,
    /// to be changed in place; nothing else in the map changes.
    #[verifier::external_body]
    pub(crate) fn get_mut(&mut self, key: u64) -> (r: Option<&mut CachedObservers>)
        ensures
            match r {
                Some(value) => signal_entries(*old(self)).contains_key(key) && *value == signal_entries(
                    *old(self),
                )[key] && signal_entries(*final(self)) == signal_entries(*old(self)).insert(
                    key,
                    *final(value),
                ),
                None => !signal_entries(*old(self)).contains_key(key) && signal_entries(*final(self))
                    == signal_entries(*old(self)),
            },
    {
        self.inner.get_mut(&key)
    }

    /// `hashbrown::HashMap::insert`: afterwards `key` has the value `value`,
    /// whether or not it had one before.
    #[verifier::external_body]
    pub(crate) fn insert(&mut self, key: u64, value: CachedObservers)
        ensures
            signal_entries(*final(self)) == signal_entries(*old(self)).insert(key, value),
    {
        self.inner.insert(key, value);
    }
}

} // verus!
