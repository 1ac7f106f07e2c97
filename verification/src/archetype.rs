//! The flags by which the store knows, component by component, for which
//! built-in signals a listener is registered.

use vstd::prelude::*;
use crate::entity::ComponentId;
use crate::table::{Table, entries_get, lemma_entries_insert};

verus! {

/// A set of flags, one per built-in signal: whether some listener is
/// registered for that signal on a component.
#[derive(Clone, Copy, Debug, PartialEq, Eq, Structural)]
pub struct ArchetypeFlags {
    pub on_add_observer: bool,
    pub on_insert_observer: bool,
    pub on_remove_observer: bool,
}

impl ArchetypeFlags {
    pub open spec fn empty_spec() -> ArchetypeFlags {
        ArchetypeFlags { on_add_observer: false, on_insert_observer: false, on_remove_observer: false }
    }

    pub open spec fn for_on_add_spec() -> ArchetypeFlags {
        ArchetypeFlags { on_add_observer: true, on_insert_observer: false, on_remove_observer: false }
    }

    pub open spec fn for_on_insert_spec() -> ArchetypeFlags {
        ArchetypeFlags { on_add_observer: false, on_insert_observer: true, on_remove_observer: false }
    }

    pub open spec fn for_on_remove_spec() -> ArchetypeFlags {
        ArchetypeFlags { on_add_observer: false, on_insert_observer: false, on_remove_observer: true }
    }

    /// The flags of `self` and those of `other`.
    pub open spec fn union(self, other: ArchetypeFlags) -> ArchetypeFlags {
        ArchetypeFlags {
            on_add_observer: self.on_add_observer || other.on_add_observer,
            on_insert_observer: self.on_insert_observer || other.on_insert_observer,
            on_remove_observer: self.on_remove_observer || other.on_remove_observer,
        }
    }

    /// The flags of `self` that are not in `other`.
    pub open spec fn difference(self, other: ArchetypeFlags) -> ArchetypeFlags {
        ArchetypeFlags {
            on_add_observer: self.on_add_observer && !other.on_add_observer,
            on_insert_observer: self.on_insert_observer && !other.on_insert_observer,
            on_remove_observer: self.on_remove_observer && !other.on_remove_observer,
        }
    }

    /// Whether every flag of `other` is set in `self`.
    pub open spec fn contains_spec(self, other: ArchetypeFlags) -> bool {
        &&& other.on_add_observer ==> self.on_add_observer
        &&& other.on_insert_observer ==> self.on_insert_observer
        &&& other.on_remove_observer ==> self.on_remove_observer
    }

    /// No flag.
    #[verifier::when_used_as_spec(empty_spec)]
    pub fn empty() -> (f: ArchetypeFlags)
        ensures
            f == ArchetypeFlags::empty_spec(),
    {
        ArchetypeFlags { on_add_observer: false, on_insert_observer: false, on_remove_observer: false }
    }

    /// The flag of the signal sent when a component is added.
    #[verifier::when_used_as_spec(for_on_add_spec)]
    pub fn for_on_add() -> (f: ArchetypeFlags)
        ensures
            f == ArchetypeFlags::for_on_add_spec(),
    {
        ArchetypeFlags { on_add_observer: true, on_insert_observer: false, on_remove_observer: false }
    }

    /// The flag of the signal sent when a component is inserted.
    #[verifier::when_used_as_spec(for_on_insert_spec)]
    pub fn for_on_insert() -> (f: ArchetypeFlags)
        ensures
            f == ArchetypeFlags::for_on_insert_spec(),
    {
        ArchetypeFlags { on_add_observer: false, on_insert_observer: true, on_remove_observer: false }
    }

    /// The flag of the signal sent when a component is removed.
    #[verifier::when_used_as_spec(for_on_remove_spec)]
    pub fn for_on_remove() -> (f: ArchetypeFlags)
        ensures
            f == ArchetypeFlags::for_on_remove_spec(),
    {
        ArchetypeFlags { on_add_observer: false, on_insert_observer: false, on_remove_observer: true }
    }

    /// Sets the flags of `other`.
    pub fn insert(&mut self, other: ArchetypeFlags)
        ensures
            *final(self) == old(self).union(other),
    {
        self.on_add_observer = self.on_add_observer || other.on_add_observer;
        self.on_insert_observer = self.on_insert_observer || other.on_insert_observer;
        self.on_remove_observer = self.on_remove_observer || other.on_remove_observer;
    }

    /// Clears the flags of `other`.
    pub fn remove(&mut self, other: ArchetypeFlags)
        ensures
            *final(self) == old(self).difference(other),
    {
        self.on_add_observer = self.on_add_observer && !other.on_add_observer;
        self.on_insert_observer = self.on_insert_observer && !other.on_insert_observer;
        self.on_remove_observer = self.on_remove_observer && !other.on_remove_observer;
    }

    /// Sets the flags of `other` where `enabled`, clears them where not.
    pub fn set(&mut self, other: ArchetypeFlags, enabled: bool)
        ensures
            *final(self) == old(self).with(other, enabled),
    {
        if enabled {
            self.insert(other);
        } else {
            self.remove(other);
        }
    }

    /// The flags after those of `other` were set or cleared.
    pub open spec fn with(self, other: ArchetypeFlags, enabled: bool) -> ArchetypeFlags {
        if enabled {
            self.union(other)
        } else {
            self.difference(other)
        }
    }

    /// Whether every flag of `other` is set.
    #[verifier::when_used_as_spec(contains_spec)]
    pub fn contains(self, other: ArchetypeFlags) -> (b: bool)
        ensures
            b == self.contains_spec(other),
    {
        (!other.on_add_observer || self.on_add_observer) && (!other.on_insert_observer
            || self.on_insert_observer) && (!other.on_remove_observer || self.on_remove_observer)
    }
}

/// The flags of every component; a component that was never flagged has none.
pub struct Archetypes {
    flags: Table<ArchetypeFlags>,
}

impl Archetypes {
    pub closed spec fn wf(&self) -> bool {
        self.flags.wf()
    }

    /// The flags of `component`.
    pub closed spec fn flags(&self, component: ComponentId) -> ArchetypeFlags {
        match entries_get(self.flags@, component) {
            Some(flags) => flags,
            None => ArchetypeFlags::empty(),
        }
    }

    /// No component is flagged.
    pub fn new() -> (a: Archetypes)
        ensures
            a.wf(),
            forall|component: ComponentId| #[trigger] a.flags(component) == ArchetypeFlags::empty(),
    {
        Archetypes { flags: Table::new() }
    }

    /// The flags of `component`.
    pub fn flags_of(&self, component: ComponentId) -> (f: ArchetypeFlags)
        requires
            self.wf(),
        ensures
            f == self.flags(component),
    {
        match self.flags.get(component) {
            Some(flags) => *flags,
            None => ArchetypeFlags::empty(),
        }
    }

    /// Sets or clears `flags` on `component`; the other components keep
    /// theirs.
    pub fn update_flags(&mut self, component: ComponentId, flags: ArchetypeFlags, enabled: bool)
        requires
            old(self).wf(),
        ensures
            final(self).wf(),
            final(self).flags(component) == old(self).flags(component).with(flags, enabled),
            forall|other: ComponentId|
                other != component ==> #[trigger] final(self).flags(other) == old(self).flags(other),
    {
        let mut current = self.flags_of(component);
        current.set(flags, enabled);
        proof {
            lemma_entries_insert(self.flags@, component, current);
        }
        self.flags.insert(component, current);
    }
}

} // verus!
