//! The observer cache: which listeners are registered for which signal kind,
//! component and target row.

use vstd::prelude::*;
use crate::archetype::{ArchetypeFlags, Archetypes};
use crate::cache_model::{
    ComponentListeners,
    Components,
    Invocation,
    ObserverCache,
    ObserverTrigger,
    SignalListeners,
    Targets,
    invocations,
    lemma_invocations_add,
    component_insert,
    component_remove,
    components_get,
    components_insert,
    components_remove,
    components_wf,
    target_insert,
    target_remove,
    targets_get,
    targets_insert,
    targets_remove,
    targets_wf,
};
use crate::entity::{ComponentId, Entity, on_add, on_insert, on_remove};
use crate::keyed::{
    ComponentMaps,
    SignalMaps,
    TargetMaps,
    component_entries,
    signal_entries,
    target_entries,
};
use crate::listeners::{Listeners, ObserverMap, ObserverRunner};
use crate::table::{entries_unique, lemma_entries_insert, lemma_entries_remove};

verus! {

/// The listeners per target row that a map from integer keys holds.
pub open spec fn targets_of(entries: Map<u64, ObserverMap>) -> Targets {
    Map::new(
        |source: Entity| entries.contains_key(source.id),
        |source: Entity| entries[source.id]@,
    )
}

proof fn lemma_targets_of_insert(entries: Map<u64, ObserverMap>, key: u64, value: ObserverMap)
    ensures
        targets_of(entries.insert(key, value)) == targets_of(entries).insert(
            Entity { id: key },
            value@,
        ),
{
    assert(targets_of(entries.insert(key, value)) =~= targets_of(entries).insert(
        Entity { id: key },
        value@,
    ));
}

proof fn lemma_targets_of_remove(entries: Map<u64, ObserverMap>, key: u64)
    ensures
        targets_of(entries.remove(key)) == targets_of(entries).remove(Entity { id: key }),
{
    assert(targets_of(entries.remove(key)) =~= targets_of(entries).remove(Entity { id: key }));
}

impl View for TargetMaps {
    type V = Targets;

    open spec fn view(&self) -> Targets {
        targets_of(target_entries(*self))
    }
}

impl TargetMaps {
    /// The listeners registered for the target `source`.
    pub fn listeners(&self, source: Entity) -> (r: Option<&ObserverMap>)
        ensures
            r.is_some() == self@.contains_key(source),
            r.is_some() ==> r.unwrap()@ == self@[source],
    {
        self.get(source.to_bits())
    }

    /// Whether no target has a listener.
    pub fn is_empty(&self) -> (b: bool)
        ensures
            b == self@.is_empty(),
    {
        let b = self.no_entries();
        proof {
            let entries = target_entries(*self);
            if b {
                assert(self@.dom() =~= Set::empty());
            } else {
                let key = choose|key: u64| entries.contains_key(key);
                assert(entries.dom() !~= Set::empty());
                assert(entries.contains_key(key));
                assert(self@.contains_key(Entity { id: key }));
            }
        }
        b
    }

    /// Registers `observer` for the target `source`.
    pub fn insert_listener(&mut self, source: Entity, observer: Entity, runner: ObserverRunner)
        requires
            targets_wf(old(self)@),
        ensures
            final(self)@ == target_insert(old(self)@, source, observer, runner),
            targets_wf(final(self)@),
    {
        let key = source.to_bits();
        if self.get(key).is_none() {
            let fresh = ObserverMap::new();
            proof {
                lemma_targets_of_insert(target_entries(*self), key, fresh);
            }
            self.insert(key, fresh);
        }
        let ghost before = target_entries(*self);
        assert(before.contains_key(key));
        assert(before[key]@ == targets_get(old(self)@, source));
        assert(before[key].wf()) by {
            if old(self)@.contains_key(source) {
            }
        }
        match self.get_mut(key) {
            Some(listeners) => {
                proof {
                    lemma_entries_insert(listeners@, observer, runner);
                }
                listeners.insert(observer, runner);
            },
            None => {},
        }
        proof {
            let after = target_entries(*self);
            lemma_targets_of_insert(before, key, after[key]);
            assert(self@ =~= target_insert(old(self)@, source, observer, runner));
            assert forall|other: Entity| #[trigger] self@.contains_key(other) implies entries_unique(
                self@[other],
            ) && self@[other].len() > 0 by {
                if other != source {
                    assert(old(self)@.contains_key(other));
                }
            }
        }
    }

    /// Takes `observer` from the listeners of the target `source`; a target
    /// left without listeners loses its entry.
    pub fn remove_listener(&mut self, source: Entity, observer: Entity)
        requires
            targets_wf(old(self)@),
        ensures
            final(self)@ == target_remove(old(self)@, source, observer),
            targets_wf(final(self)@),
    {
        let key = source.to_bits();
        let ghost before = target_entries(*self);
        let mut emptied = false;
        assert(before.contains_key(key) ==> before[key].wf()) by {
            if old(self)@.contains_key(source) {
            }
        }
        match self.get_mut(key) {
            Some(listeners) => {
                proof {
                    lemma_entries_remove(listeners@, observer);
                }
                listeners.remove(observer);
                emptied = listeners.is_empty();
            },
            None => {},
        }
        let ghost middle = target_entries(*self);
        if emptied {
            self.remove(key);
        }
        proof {
            if before.contains_key(key) {
                lemma_targets_of_insert(before, key, middle[key]);
                if emptied {
                    lemma_targets_of_remove(middle, key);
                }
            }
            assert(self@ =~= target_remove(old(self)@, source, observer));
            assert forall|other: Entity| #[trigger] self@.contains_key(other) implies entries_unique(
                self@[other],
            ) && self@[other].len() > 0 by {
                if other != source {
                    assert(old(self)@.contains_key(other));
                }
            }
        }
    }
}

/// The listeners of one signal kind that are scoped to one component.
pub struct CachedComponentObservers {
    /// Listeners for the component on any row.
    map: ObserverMap,
    /// Listeners for the component on one target row.
    entity_map: TargetMaps,
}

impl View for CachedComponentObservers {
    type V = ComponentListeners;

    closed spec fn view(&self) -> ComponentListeners {
        ComponentListeners { map: self.map@, entity_map: self.entity_map@ }
    }
}

impl CachedComponentObservers {
    pub open spec fn wf(&self) -> bool {
        self@.wf()
    }

    /// No listener at all.
    pub fn new() -> (c: CachedComponentObservers)
        ensures
            c@ == ComponentListeners::empty(),
            c.wf(),
    {
        let c = CachedComponentObservers { map: ObserverMap::new(), entity_map: TargetMaps::new() };
        assert(c.entity_map@ =~= Map::empty());
        c
    }

    /// Whether no listener is left.
    pub fn is_empty(&self) -> (b: bool)
        ensures
            b == self@.is_empty(),
    {
        self.map.is_empty() && self.entity_map.is_empty()
    }

    /// The listeners for the component on any row.
    pub fn listeners(&self) -> (m: &ObserverMap)
        ensures
            m@ == self@.map,
    {
        &self.map
    }

    /// The listeners for the component on the row `source`.
    pub fn targeted(&self, source: Entity) -> (r: Option<&ObserverMap>)
        ensures
            r.is_some() == self@.entity_map.contains_key(source),
            r.is_some() ==> r.unwrap()@ == self@.entity_map[source],
    {
        self.entity_map.listeners(source)
    }

    /// Registers `observer` for the component: on every row where `sources`
    /// is empty, else on each row of `sources`.
    pub fn insert(&mut self, observer: Entity, runner: ObserverRunner, sources: &Vec<Entity>)
        requires
            old(self).wf(),
        ensures
            final(self)@ == old(self)@.insert(observer, runner, sources@),
            final(self).wf(),
            !final(self)@.is_empty(),
    {
        if sources.len() == 0 {
            proof {
                lemma_entries_insert(self.map@, observer, runner);
            }
            self.map.insert(observer, runner);
        } else {
            let mut i: usize = 0;
            while i < sources.len()
                invariant
                    i <= sources.len(),
                    self.map == old(self).map,
                    targets_wf(self.entity_map@),
                    self.entity_map@ == targets_insert(
                        old(self).entity_map@,
                        sources@.take(i as int),
                        observer,
                        runner,
                    ),
                    i > 0 ==> self.entity_map@.contains_key(sources@[i - 1]),
                decreases sources.len() - i,
            {
                self.entity_map.insert_listener(sources[i], observer, runner);
                proof {
                    assert(sources@.take(i + 1).drop_last() =~= sources@.take(i as int));
                }
                i = i + 1;
            }
            proof {
                assert(sources@.take(sources.len() as int) =~= sources@);
                assert(self@.entity_map.contains_key(sources@[sources.len() - 1]));
            }
        }
    }

    /// The mirror image of `insert`.
    pub fn remove(&mut self, observer: Entity, sources: &Vec<Entity>)
        requires
            old(self).wf(),
        ensures
            final(self)@ == old(self)@.remove(observer, sources@),
            final(self).wf(),
    {
        if sources.len() == 0 {
            proof {
                lemma_entries_remove(self.map@, observer);
            }
            self.map.remove(observer);
        } else {
            let mut i: usize = 0;
            while i < sources.len()
                invariant
                    i <= sources.len(),
                    self.map == old(self).map,
                    targets_wf(self.entity_map@),
                    self.entity_map@ == targets_remove(
                        old(self).entity_map@,
                        sources@.take(i as int),
                        observer,
                    ),
                decreases sources.len() - i,
            {
                self.entity_map.remove_listener(sources[i], observer);
                proof {
                    assert(sources@.take(i + 1).drop_last() =~= sources@.take(i as int));
                }
                i = i + 1;
            }
            proof {
                assert(sources@.take(sources.len() as int) =~= sources@);
            }
        }
    }
}

/// The listeners per component that a map from integer keys holds.
pub open spec fn components_of(entries: Map<u64, CachedComponentObservers>) -> Components {
    Map::new(
        |component: ComponentId| entries.contains_key(component.id),
        |component: ComponentId| entries[component.id]@,
    )
}

proof fn lemma_components_of_insert(
    entries: Map<u64, CachedComponentObservers>,
    key: u64,
    value: CachedComponentObservers,
)
    ensures
        components_of(entries.insert(key, value)) == components_of(entries).insert(
            Entity { id: key },
            value@,
        ),
{
    assert(components_of(entries.insert(key, value)) =~= components_of(entries).insert(
        Entity { id: key },
        value@,
    ));
}

proof fn lemma_components_of_remove(entries: Map<u64, CachedComponentObservers>, key: u64)
    ensures
        components_of(entries.remove(key)) == components_of(entries).remove(Entity { id: key }),
{
    assert(components_of(entries.remove(key)) =~= components_of(entries).remove(
        Entity { id: key },
    ));
}

impl View for ComponentMaps {
    type V = Components;

    open spec fn view(&self) -> Components {
        components_of(component_entries(*self))
    }
}

impl ComponentMaps {
    /// What is registered for `component`.
    pub fn component(&self, component: ComponentId) -> (r: Option<&CachedComponentObservers>)
        ensures
            r.is_some() == self@.contains_key(component),
            r.is_some() ==> r.unwrap()@ == self@[component],
    {
        self.get(component.to_bits())
    }

    /// Whether anything is registered for `component`.
    pub fn contains_key(&self, component: ComponentId) -> (b: bool)
        ensures
            b == self@.contains_key(component),
    {
        self.get(component.to_bits()).is_some()
    }

    /// Registers `observer` for `component` and says whether the component
    /// had no entry before.
    pub fn insert_listener(
        &mut self,
        component: ComponentId,
        observer: Entity,
        runner: ObserverRunner,
        sources: &Vec<Entity>,
    ) -> (created: bool)
        requires
            components_wf(old(self)@),
        ensures
            final(self)@ == component_insert(old(self)@, component, observer, runner, sources@),
            components_wf(final(self)@),
            created == !old(self)@.contains_key(component),
    {
        let key = component.to_bits();
        let created = self.get(key).is_none();
        if created {
            let fresh = CachedComponentObservers::new();
            proof {
                lemma_components_of_insert(component_entries(*self), key, fresh);
            }
            self.insert(key, fresh);
        }
        let ghost before = component_entries(*self);
        assert(before.contains_key(key));
        assert(before[key]@ == components_get(old(self)@, component));
        assert(before[key].wf()) by {
            if old(self)@.contains_key(component) {
            }
        }
        match self.get_mut(key) {
            Some(listeners) => {
                listeners.insert(observer, runner, sources);
            },
            None => {},
        }
        proof {
            let after = component_entries(*self);
            lemma_components_of_insert(before, key, after[key]);
            assert(self@ =~= component_insert(old(self)@, component, observer, runner, sources@));
            assert forall|other: ComponentId| #[trigger]
                self@.contains_key(other) implies self@[other].wf() && !self@[other].is_empty() by {
                if other != component {
                    assert(old(self)@.contains_key(other));
                }
            }
        }
        created
    }

    /// Unregisters `observer` for `component` and says whether the component
    /// lost its entry, which it does when no listener is left for it.
    pub fn remove_listener(
        &mut self,
        component: ComponentId,
        observer: Entity,
        sources: &Vec<Entity>,
    ) -> (evicted: bool)
        requires
            components_wf(old(self)@),
        ensures
            final(self)@ == component_remove(old(self)@, component, observer, sources@),
            components_wf(final(self)@),
            evicted == (old(self)@.contains_key(component) && !final(self)@.contains_key(
                component,
            )),
    {
        let key = component.to_bits();
        let ghost before = component_entries(*self);
        let mut emptied = false;
        assert(before.contains_key(key) ==> before[key].wf()) by {
            if old(self)@.contains_key(component) {
            }
        }
        match self.get_mut(key) {
            Some(listeners) => {
                listeners.remove(observer, sources);
                emptied = listeners.is_empty();
            },
            None => {},
        }
        let ghost middle = component_entries(*self);
        if emptied {
            self.remove(key);
        }
        proof {
            if before.contains_key(key) {
                lemma_components_of_insert(before, key, middle[key]);
                if emptied {
                    lemma_components_of_remove(middle, key);
                }
            }
            assert(self@ =~= component_remove(old(self)@, component, observer, sources@));
            assert forall|other: ComponentId| #[trigger]
                self@.contains_key(other) implies self@[other].wf() && !self@[other].is_empty() by {
                if other != component {
                    assert(old(self)@.contains_key(other));
                }
            }
        }
        emptied
    }
}

/// Whether `flag`, which is not the empty set of flags, is set on exactly the
/// components that have an entry.
pub open spec fn flag_agrees(components: Components, archetypes: Archetypes, flag: ArchetypeFlags) -> bool {
    &&& flag != ArchetypeFlags::empty()
    &&& forall|component: ComponentId| #[trigger]
        archetypes.flags(component).contains(flag) <==> components.contains_key(component)
}

/// Whether the two tables give every component the same flags, those of
/// `flag` apart.
pub open spec fn same_flags_but(before: Archetypes, after: Archetypes, flag: ArchetypeFlags) -> bool {
    forall|component: ComponentId| #[trigger]
        after.flags(component).difference(flag) == before.flags(component).difference(flag)
}

/// The listeners of one signal kind.
pub struct CachedObservers {
    /// Listeners without any scope.
    map: ObserverMap,
    /// Listeners scoped to a component.
    component_observers: ComponentMaps,
    /// Listeners scoped to a target row only.
    entity_observers: TargetMaps,
}

impl View for CachedObservers {
    type V = SignalListeners;

    closed spec fn view(&self) -> SignalListeners {
        SignalListeners {
            map: self.map@,
            component_observers: self.component_observers@,
            entity_observers: self.entity_observers@,
        }
    }
}

impl CachedObservers {
    pub open spec fn wf(&self) -> bool {
        self@.wf()
    }

    /// No listener at all.
    pub fn new() -> (c: CachedObservers)
        ensures
            c@ == SignalListeners::empty(),
            c.wf(),
    {
        let c = CachedObservers {
            map: ObserverMap::new(),
            component_observers: ComponentMaps::new(),
            entity_observers: TargetMaps::new(),
        };
        assert(c.entity_observers@ =~= Map::empty());
        assert(c.component_observers@ =~= Map::empty());
        c
    }

    /// The listeners without any scope.
    pub fn listeners(&self) -> (m: &ObserverMap)
        ensures
            m@ == self@.map,
    {
        &self.map
    }

    /// The listeners scoped to the row `source` only.
    pub fn targeted(&self, source: Entity) -> (r: Option<&ObserverMap>)
        ensures
            r.is_some() == self@.entity_observers.contains_key(source),
            r.is_some() ==> r.unwrap()@ == self@.entity_observers[source],
    {
        self.entity_observers.listeners(source)
    }

    /// The listeners scoped to `component`.
    pub fn component(&self, component: ComponentId) -> (r: Option<&CachedComponentObservers>)
        ensures
            r.is_some() == self@.component_observers.contains_key(component),
            r.is_some() ==> r.unwrap()@ == self@.component_observers[component],
    {
        self.component_observers.component(component)
    }

    /// Whether a listener is scoped to `component`.
    pub fn has_component(&self, component: ComponentId) -> (b: bool)
        ensures
            b == self@.component_observers.contains_key(component),
    {
        self.component_observers.contains_key(component)
    }

    /// Registers `observer` for this signal kind under the scope that
    /// `components` and `sources` give. Where the kind has a flag, the flag
    /// is set on every component that comes to have an entry.
    pub fn register(
        &mut self,
        flag: Option<ArchetypeFlags>,
        archetypes: &mut Archetypes,
        observer: Entity,
        runner: ObserverRunner,
        components: &Vec<ComponentId>,
        sources: &Vec<Entity>,
    )
        requires
            old(self).wf(),
            old(archetypes).wf(),
            flag.is_some() ==> flag_agrees(
                old(self)@.component_observers,
                *old(archetypes),
                flag.unwrap(),
            ),
        ensures
            final(self)@ == old(self)@.register(observer, runner, components@, sources@),
            final(self).wf(),
            final(archetypes).wf(),
            flag.is_some() ==> flag_agrees(
                final(self)@.component_observers,
                *final(archetypes),
                flag.unwrap(),
            ),
            flag.is_some() ==> same_flags_but(*old(archetypes), *final(archetypes), flag.unwrap()),
            flag.is_none() ==> forall|component: ComponentId| #[trigger]
                final(archetypes).flags(component) == old(archetypes).flags(component),
    {
        if components.len() == 0 && sources.len() == 0 {
            proof {
                lemma_entries_insert(self.map@, observer, runner);
            }
            self.map.insert(observer, runner);
        } else if components.len() == 0 {
            let mut i: usize = 0;
            while i < sources.len()
                invariant
                    i <= sources.len(),
                    self.map == old(self).map,
                    self.component_observers == old(self).component_observers,
                    targets_wf(self.entity_observers@),
                    self.entity_observers@ == targets_insert(
                        old(self).entity_observers@,
                        sources@.take(i as int),
                        observer,
                        runner,
                    ),
                decreases sources.len() - i,
            {
                self.entity_observers.insert_listener(sources[i], observer, runner);
                proof {
                    assert(sources@.take(i + 1).drop_last() =~= sources@.take(i as int));
                }
                i = i + 1;
            }
            proof {
                assert(sources@.take(sources.len() as int) =~= sources@);
            }
        } else {
            let mut i: usize = 0;
            while i < components.len()
                invariant
                    i <= components.len(),
                    self.map == old(self).map,
                    self.entity_observers == old(self).entity_observers,
                    components_wf(self.component_observers@),
                    self.component_observers@ == components_insert(
                        old(self).component_observers@,
                        components@.take(i as int),
                        observer,
                        runner,
                        sources@,
                    ),
                    archetypes.wf(),
                    flag.is_some() ==> flag_agrees(
                        self.component_observers@,
                        *archetypes,
                        flag.unwrap(),
                    ),
                    flag.is_some() ==> same_flags_but(*old(archetypes), *archetypes, flag.unwrap()),
                    flag.is_none() ==> forall|component: ComponentId| #[trigger]
                        archetypes.flags(component) == old(archetypes).flags(component),
                decreases components.len() - i,
            {
                let component = components[i];
                let ghost entries_before = self.component_observers@;
                let created = self.component_observers.insert_listener(
                    component,
                    observer,
                    runner,
                    sources,
                );
                let ghost flags_before = *archetypes;
                if created {
                    if let Some(flag) = flag {
                        archetypes.update_flags(component, flag, true);
                    }
                }
                proof {
                    if flag.is_some() {
                        assert forall|other: ComponentId| #[trigger]
                            archetypes.flags(other).difference(flag.unwrap()) == old(
                                archetypes,
                            ).flags(other).difference(flag.unwrap()) by {
                            assert(flags_before.flags(other).difference(flag.unwrap()) == old(
                                archetypes,
                            ).flags(other).difference(flag.unwrap()));
                        }
                        assert forall|other: ComponentId| #[trigger]
                            archetypes.flags(other).contains(flag.unwrap())
                                <==> self.component_observers@.contains_key(other) by {
                            assert(flags_before.flags(other).contains(flag.unwrap())
                                <==> entries_before.contains_key(other));
                        }
                    }
                    assert(components@.take(i + 1).drop_last() =~= components@.take(i as int));
                }
                i = i + 1;
            }
            proof {
                assert(components@.take(components.len() as int) =~= components@);
            }
        }
    }

    /// The mirror image of `register`. Where the kind has a flag, the flag is
    /// cleared on every component that loses its entry.
    pub fn unregister(
        &mut self,
        flag: Option<ArchetypeFlags>,
        archetypes: &mut Archetypes,
        observer: Entity,
        components: &Vec<ComponentId>,
        sources: &Vec<Entity>,
    )
        requires
            old(self).wf(),
            old(archetypes).wf(),
            flag.is_some() ==> flag_agrees(
                old(self)@.component_observers,
                *old(archetypes),
                flag.unwrap(),
            ),
        ensures
            final(self)@ == old(self)@.unregister(observer, components@, sources@),
            final(self).wf(),
            final(archetypes).wf(),
            flag.is_some() ==> flag_agrees(
                final(self)@.component_observers,
                *final(archetypes),
                flag.unwrap(),
            ),
            flag.is_some() ==> same_flags_but(*old(archetypes), *final(archetypes), flag.unwrap()),
            flag.is_none() ==> forall|component: ComponentId| #[trigger]
                final(archetypes).flags(component) == old(archetypes).flags(component),
    {
        if components.len() == 0 && sources.len() == 0 {
            proof {
                lemma_entries_remove(self.map@, observer);
            }
            self.map.remove(observer);
        } else if components.len() == 0 {
            let mut i: usize = 0;
            while i < sources.len()
                invariant
                    i <= sources.len(),
                    self.map == old(self).map,
                    self.component_observers == old(self).component_observers,
                    targets_wf(self.entity_observers@),
                    self.entity_observers@ == targets_remove(
                        old(self).entity_observers@,
                        sources@.take(i as int),
                        observer,
                    ),
                decreases sources.len() - i,
            {
                self.entity_observers.remove_listener(sources[i], observer);
                proof {
                    assert(sources@.take(i + 1).drop_last() =~= sources@.take(i as int));
                }
                i = i + 1;
            }
            proof {
                assert(sources@.take(sources.len() as int) =~= sources@);
            }
        } else {
            let mut i: usize = 0;
            while i < components.len()
                invariant
                    i <= components.len(),
                    self.map == old(self).map,
                    self.entity_observers == old(self).entity_observers,
                    components_wf(self.component_observers@),
                    self.component_observers@ == components_remove(
                        old(self).component_observers@,
                        components@.take(i as int),
                        observer,
                        sources@,
                    ),
                    archetypes.wf(),
                    flag.is_some() ==> flag_agrees(
                        self.component_observers@,
                        *archetypes,
                        flag.unwrap(),
                    ),
                    flag.is_some() ==> same_flags_but(*old(archetypes), *archetypes, flag.unwrap()),
                    flag.is_none() ==> forall|component: ComponentId| #[trigger]
                        archetypes.flags(component) == old(archetypes).flags(component),
                decreases components.len() - i,
            {
                let component = components[i];
                let ghost entries_before = self.component_observers@;
                let evicted = self.component_observers.remove_listener(component, observer, sources);
                let ghost flags_before = *archetypes;
                if evicted {
                    if let Some(flag) = flag {
                        archetypes.update_flags(component, flag, false);
                    }
                }
                proof {
                    if flag.is_some() {
                        assert forall|other: ComponentId| #[trigger]
                            archetypes.flags(other).difference(flag.unwrap()) == old(
                                archetypes,
                            ).flags(other).difference(flag.unwrap()) by {
                            assert(flags_before.flags(other).difference(flag.unwrap()) == old(
                                archetypes,
                            ).flags(other).difference(flag.unwrap()));
                        }
                        assert forall|other: ComponentId| #[trigger]
                            archetypes.flags(other).contains(flag.unwrap())
                                <==> self.component_observers@.contains_key(other) by {
                            assert(flags_before.flags(other).contains(flag.unwrap())
                                <==> entries_before.contains_key(other));
                        }
                    }
                    assert(components@.take(i + 1).drop_last() =~= components@.take(i as int));
                }
                i = i + 1;
            }
            proof {
                assert(components@.take(components.len() as int) =~= components@);
            }
        }
    }
}

/// The listeners per signal kind that a map from integer keys holds.
pub open spec fn signals_of(entries: Map<u64, CachedObservers>) -> Map<ComponentId, SignalListeners> {
    Map::new(
        |trigger: ComponentId| entries.contains_key(trigger.id),
        |trigger: ComponentId| entries[trigger.id]@,
    )
}

proof fn lemma_signals_of_insert(entries: Map<u64, CachedObservers>, key: u64, value: CachedObservers)
    ensures
        signals_of(entries.insert(key, value)) == signals_of(entries).insert(
            Entity { id: key },
            value@,
        ),
{
    assert(signals_of(entries.insert(key, value)) =~= signals_of(entries).insert(
        Entity { id: key },
        value@,
    ));
}

/// What is known of a listener when it is registered: the signal kinds it
/// listens for, the components it is scoped to (none: any) and the target
/// rows it is scoped to (none: any).
pub struct ObserverDescriptor {
    triggers: Vec<ComponentId>,
    components: Vec<ComponentId>,
    sources: Vec<Entity>,
}

impl ObserverDescriptor {
    pub closed spec fn triggers(&self) -> Seq<ComponentId> {
        self.triggers@
    }

    pub closed spec fn components(&self) -> Seq<ComponentId> {
        self.components@
    }

    pub closed spec fn sources(&self) -> Seq<Entity> {
        self.sources@
    }

    /// A descriptor with the given signal kinds and scope.
    pub fn new(triggers: Vec<ComponentId>, components: Vec<ComponentId>, sources: Vec<Entity>) -> (d:
        ObserverDescriptor)
        ensures
            d.triggers() == triggers@,
            d.components() == components@,
            d.sources() == sources@,
    {
        ObserverDescriptor { triggers, components, sources }
    }

    /// The signal kinds listened for.
    pub fn trigger_ids(&self) -> (r: &Vec<ComponentId>)
        ensures
            r@ == self.triggers(),
    {
        &self.triggers
    }

    /// The components of the scope.
    pub fn component_ids(&self) -> (r: &Vec<ComponentId>)
        ensures
            r@ == self.components(),
    {
        &self.components
    }

    /// The target rows of the scope.
    pub fn source_ids(&self) -> (r: &Vec<Entity>)
        ensures
            r@ == self.sources(),
    {
        &self.sources
    }
}

/// The flag that the store keeps for a built-in signal kind; other kinds
/// have none.
pub open spec fn flag_of(trigger: ComponentId) -> Option<ArchetypeFlags> {
    if trigger == on_add() {
        Some(ArchetypeFlags::for_on_add())
    } else if trigger == on_insert() {
        Some(ArchetypeFlags::for_on_insert())
    } else if trigger == on_remove() {
        Some(ArchetypeFlags::for_on_remove())
    } else {
        None
    }
}

/// Whether each flag is set on exactly the components for which the cache
/// holds a listener of the flag's signal kind.
pub open spec fn flags_agree(cache: ObserverCache, archetypes: Archetypes) -> bool {
    &&& flag_agrees(cache.on_add.component_observers, archetypes, ArchetypeFlags::for_on_add())
    &&& flag_agrees(cache.on_insert.component_observers, archetypes, ArchetypeFlags::for_on_insert())
    &&& flag_agrees(cache.on_remove.component_observers, archetypes, ArchetypeFlags::for_on_remove())
}

/// The cache of all listeners, by signal kind. The three built-in kinds have
/// places of their own; the others are looked up in a map.
pub struct Observers {
    on_add: CachedObservers,
    on_insert: CachedObservers,
    on_remove: CachedObservers,
    cache: SignalMaps,
}

impl View for Observers {
    type V = ObserverCache;

    closed spec fn view(&self) -> ObserverCache {
        ObserverCache {
            on_add: self.on_add@,
            on_insert: self.on_insert@,
            on_remove: self.on_remove@,
            cache: signals_of(signal_entries(self.cache)),
        }
    }
}

/// Appends the steps that run `listeners` to `out`.
fn push_invocations(
    out: &mut Vec<Invocation>,
    listeners: &ObserverMap,
    trigger: ComponentId,
    source: Entity,
)
    ensures
        final(out)@ == old(out)@ + invocations(listeners@, trigger, source),
{
    let mut i: usize = 0;
    while i < listeners.len()
        invariant
            i <= listeners@.len(),
            out@ == old(out)@ + invocations(listeners@.take(i as int), trigger, source),
        decreases listeners@.len() - i,
    {
        let entry = listeners.entry(i);
        out.push(
            Invocation {
                runner: entry.1,
                trigger: ObserverTrigger { observer: entry.0, trigger, source },
            },
        );
        proof {
            assert(out@ =~= old(out)@ + invocations(
                listeners@.take(i + 1),
                trigger,
                source,
            ));
        }
        i = i + 1;
    }
    proof {
        assert(listeners@.take(listeners@.len() as int) =~= listeners@);
    }
}

impl Observers {
    pub open spec fn wf(&self) -> bool {
        self@.wf()
    }

    /// A cache without listeners.
    pub fn new() -> (o: Observers)
        ensures
            o@ == ObserverCache::empty(),
            o.wf(),
    {
        let o = Observers {
            on_add: CachedObservers::new(),
            on_insert: CachedObservers::new(),
            on_remove: CachedObservers::new(),
            cache: SignalMaps::new(),
        };
        assert(o@.cache =~= Map::empty());
        o
    }

    /// The listeners of `trigger`, to be changed in place. A kind that had no
    /// place in the cache gets one, without listeners.
    pub fn get_observers(&mut self, trigger: ComponentId) -> (r: &mut CachedObservers)
        requires
            old(self).wf(),
        ensures
            r@ == old(self)@.slot(trigger),
            r.wf(),
            final(self)@ == old(self)@.with_slot(trigger, final(r)@),
    {
        if trigger == on_add() {
            &mut self.on_add
        } else if trigger == on_insert() {
            &mut self.on_insert
        } else if trigger == on_remove() {
            &mut self.on_remove
        } else {
            let key = trigger.to_bits();
            if self.cache.get(key).is_none() {
                let fresh = CachedObservers::new();
                proof {
                    lemma_signals_of_insert(signal_entries(self.cache), key, fresh);
                }
                self.cache.insert(key, fresh);
            }
            let ghost before = signal_entries(self.cache);
            assert(before.contains_key(key));
            assert(before[key].wf()) by {
                if old(self)@.cache.contains_key(trigger) {
                }
            }
            let r = self.cache.get_mut(key).unwrap();
            proof {
                lemma_signals_of_insert(before, key, *final(r));
                assert(signals_of(before).insert(trigger, final(r)@) =~= old(self)@.cache.insert(
                    trigger,
                    final(r)@,
                ));
            }
            r
        }
    }

    /// The listeners of `trigger`, if the cache has a place for that kind.
    pub fn try_get_observers(&self, trigger: ComponentId) -> (r: Option<&CachedObservers>)
        ensures
            r.is_some() == self@.lookup(trigger).is_some(),
            r.is_some() ==> r.unwrap()@ == self@.lookup(trigger).unwrap(),
    {
        if trigger == on_add() {
            Some(&self.on_add)
        } else if trigger == on_insert() {
            Some(&self.on_insert)
        } else if trigger == on_remove() {
            Some(&self.on_remove)
        } else {
            self.cache.get(trigger.to_bits())
        }
    }

    /// The steps of the dispatch of a signal of kind `trigger` about `source`
    /// that touched `components`: the listeners to run, in order, each with
    /// what it is told. A kind without a place in the cache reaches nobody.
    pub fn invoke(&self, trigger: ComponentId, source: Entity, components: &Vec<ComponentId>) -> (r:
        Vec<Invocation>)
        ensures
            r@ == self@.dispatch(trigger, source, components@),
    {
        let mut out: Vec<Invocation> = Vec::new();
        let observers = match self.try_get_observers(trigger) {
            Some(observers) => observers,
            None => {
                proof {
                    lemma_reached_nobody(source, components@);
                    assert(out@ =~= self@.dispatch(trigger, source, components@));
                }
                return out;
            },
        };
        assert(observers@ == self@.slot(trigger));
        push_invocations(&mut out, observers.listeners(), trigger, source);
        assert(out@ =~= invocations(observers@.map, trigger, source));
        if !source.is_placeholder() {
            if let Some(map) = observers.targeted(source) {
                proof {
                    lemma_invocations_add(observers@.map, map@, trigger, source);
                }
                push_invocations(&mut out, map, trigger, source);
            }
        }
        assert(out@ =~= invocations(observers@.map + observers@.targeted(source), trigger, source))
            by {
            assert(observers@.map + Seq::empty() =~= observers@.map);
        }
        let mut i: usize = 0;
        while i < components.len()
            invariant
                i <= components.len(),
                out@ == invocations(
                    observers@.map + observers@.targeted(source) + observers@.through_components(
                        source,
                        components@.take(i as int),
                    ),
                    trigger,
                    source,
                ),
            decreases components.len() - i,
        {
            let ghost done = observers@.map + observers@.targeted(source)
                + observers@.through_components(source, components@.take(i as int));
            let ghost so_far = out@;
            if let Some(component_observers) = observers.component(components[i]) {
                push_invocations(&mut out, component_observers.listeners(), trigger, source);
                if !source.is_placeholder() {
                    if let Some(map) = component_observers.targeted(source) {
                        push_invocations(&mut out, map, trigger, source);
                    }
                }
            }
            proof {
                let bucket = components_get(observers@.component_observers, components@[i as int]).bucket(
                    source,
                );
                assert(components@.take(i + 1).drop_last() =~= components@.take(i as int));
                assert(components@.take(i + 1).last() == components@[i as int]);
                assert(out@ =~= so_far + invocations(bucket, trigger, source)) by {
                    if observers@.component_observers.contains_key(components@[i as int]) {
                        let c = observers@.component_observers[components@[i as int]];
                        if source != Entity::placeholder() {
                            lemma_invocations_add(
                                c.map,
                                targets_get(c.entity_map, source),
                                trigger,
                                source,
                            );
                            assert(c.map + Seq::empty() =~= c.map);
                        }
                    }
                }
                lemma_invocations_add(done, bucket, trigger, source);
                assert(observers@.map + observers@.targeted(source)
                    + observers@.through_components(source, components@.take(i + 1)) =~= done
                    + bucket);
            }
            i = i + 1;
        }
        proof {
            assert(components@.take(components.len() as int) =~= components@);
        }
        out
    }

    /// The flag that the store keeps for `trigger`, if it is a built-in kind.
    pub fn is_archetype_cached(trigger: ComponentId) -> (r: Option<ArchetypeFlags>)
        ensures
            r == flag_of(trigger),
    {
        if trigger == on_add() {
            Some(ArchetypeFlags::for_on_add())
        } else if trigger == on_insert() {
            Some(ArchetypeFlags::for_on_insert())
        } else if trigger == on_remove() {
            Some(ArchetypeFlags::for_on_remove())
        } else {
            None
        }
    }

    /// Sets in `flags` the flag of each built-in signal kind for which a
    /// listener is scoped to `component_id`; no flag is cleared.
    pub fn update_archetype_flags(&self, component_id: ComponentId, flags: &mut ArchetypeFlags)
        ensures
            *final(flags) == old(flags).union(self@.flags_for(component_id)),
    {
        if self.on_add.has_component(component_id) {
            flags.insert(ArchetypeFlags::for_on_add());
        }
        if self.on_insert.has_component(component_id) {
            flags.insert(ArchetypeFlags::for_on_insert());
        }
        if self.on_remove.has_component(component_id) {
            flags.insert(ArchetypeFlags::for_on_remove());
        }
    }

    /// Registers the listener `observer`, which `runner` runs, for every
    /// signal kind of `descriptor` under the scope that `descriptor` gives,
    /// and keeps the flags of the store in step with the cache.
    pub fn register(
        &mut self,
        archetypes: &mut Archetypes,
        observer: Entity,
        runner: ObserverRunner,
        descriptor: &ObserverDescriptor,
    )
        requires
            old(self).wf(),
            old(archetypes).wf(),
            flags_agree(old(self)@, *old(archetypes)),
        ensures
            final(self)@ == old(self)@.register(
                observer,
                runner,
                descriptor.triggers(),
                descriptor.components(),
                descriptor.sources(),
            ),
            final(self).wf(),
            final(archetypes).wf(),
            flags_agree(final(self)@, *final(archetypes)),
    {
        let mut i: usize = 0;
        while i < descriptor.triggers.len()
            invariant
                i <= descriptor.triggers.len(),
                self.wf(),
                archetypes.wf(),
                flags_agree(self@, *archetypes),
                self@ == old(self)@.register(
                    observer,
                    runner,
                    descriptor.triggers@.take(i as int),
                    descriptor.components@,
                    descriptor.sources@,
                ),
            decreases descriptor.triggers.len() - i,
        {
            let trigger = descriptor.triggers[i];
            let flag = Observers::is_archetype_cached(trigger);
            let ghost before = self@;
            let ghost flags_before = *archetypes;
            let cache = self.get_observers(trigger);
            cache.register(
                flag,
                archetypes,
                observer,
                runner,
                &descriptor.components,
                &descriptor.sources,
            );
            proof {
                assert(descriptor.triggers@.take(i + 1).drop_last() =~= descriptor.triggers@.take(
                    i as int,
                ));
                lemma_with_slot_wf(before, trigger, self@.slot(trigger));
                lemma_flags_carry(before, self@, trigger, flags_before, *archetypes);
            }
            i = i + 1;
        }
        proof {
            assert(descriptor.triggers@.take(descriptor.triggers.len() as int)
                =~= descriptor.triggers@);
        }
    }

    /// Unregisters the listener `observer` from every place in which
    /// `register` puts a listener with this `descriptor`, and keeps the flags
    /// of the store in step with the cache.
    pub fn unregister(
        &mut self,
        archetypes: &mut Archetypes,
        observer: Entity,
        descriptor: &ObserverDescriptor,
    )
        requires
            old(self).wf(),
            old(archetypes).wf(),
            flags_agree(old(self)@, *old(archetypes)),
        ensures
            final(self)@ == old(self)@.unregister(
                observer,
                descriptor.triggers(),
                descriptor.components(),
                descriptor.sources(),
            ),
            final(self).wf(),
            final(archetypes).wf(),
            flags_agree(final(self)@, *final(archetypes)),
    {
        let mut i: usize = 0;
        while i < descriptor.triggers.len()
            invariant
                i <= descriptor.triggers.len(),
                self.wf(),
                archetypes.wf(),
                flags_agree(self@, *archetypes),
                self@ == old(self)@.unregister(
                    observer,
                    descriptor.triggers@.take(i as int),
                    descriptor.components@,
                    descriptor.sources@,
                ),
            decreases descriptor.triggers.len() - i,
        {
            let trigger = descriptor.triggers[i];
            let flag = Observers::is_archetype_cached(trigger);
            let ghost before = self@;
            let ghost flags_before = *archetypes;
            let cache = self.get_observers(trigger);
            cache.unregister(flag, archetypes, observer, &descriptor.components, &descriptor.sources);
            proof {
                assert(descriptor.triggers@.take(i + 1).drop_last() =~= descriptor.triggers@.take(
                    i as int,
                ));
                lemma_with_slot_wf(before, trigger, self@.slot(trigger));
                lemma_flags_carry(before, self@, trigger, flags_before, *archetypes);
            }
            i = i + 1;
        }
        proof {
            assert(descriptor.triggers@.take(descriptor.triggers.len() as int)
                =~= descriptor.triggers@);
        }
    }
}

/// A signal kind without a place in the cache reaches nobody.
proof fn lemma_reached_nobody(source: Entity, components: Seq<ComponentId>)
    ensures
        SignalListeners::empty().reached(source, components) == Listeners::empty(),
    decreases components.len(),
{
    let e = SignalListeners::empty();
    if components.len() > 0 {
        lemma_reached_nobody(source, components.drop_last());
        assert(e.reached(source, components.drop_last()) =~= e.through_components(
            source,
            components.drop_last(),
        ));
    }
    assert(e.through_components(source, components) =~= Listeners::empty());
    assert(e.reached(source, components) =~= Listeners::empty());
}

/// Putting well-formed listeners into a place of a well-formed cache leaves
/// the cache well formed.
proof fn lemma_with_slot_wf(cache: ObserverCache, trigger: ComponentId, listeners: SignalListeners)
    requires
        cache.wf(),
        listeners.wf(),
    ensures
        cache.with_slot(trigger, listeners).wf(),
        cache.with_slot(trigger, listeners).slot(trigger) == listeners,
{
}

/// A change to the one place of `trigger` that keeps that place's flag in
/// step, and touches no other flag, keeps all flags in step.
proof fn lemma_flags_carry(
    before: ObserverCache,
    after: ObserverCache,
    trigger: ComponentId,
    flags_before: Archetypes,
    flags_after: Archetypes,
)
    requires
        flags_agree(before, flags_before),
        after == before.with_slot(trigger, after.slot(trigger)),
        flag_of(trigger).is_some() ==> flag_agrees(
            after.slot(trigger).component_observers,
            flags_after,
            flag_of(trigger).unwrap(),
        ) && same_flags_but(flags_before, flags_after, flag_of(trigger).unwrap()),
        flag_of(trigger).is_none() ==> forall|component: ComponentId| #[trigger]
            flags_after.flags(component) == flags_before.flags(component),
    ensures
        flags_agree(after, flags_after),
{
    assert forall|component: ComponentId|
        trigger != on_add() implies (#[trigger] flags_after.flags(component)).contains(
        ArchetypeFlags::for_on_add(),
    ) == flags_before.flags(component).contains(ArchetypeFlags::for_on_add()) by {
        if flag_of(trigger).is_some() {
            assert(flags_after.flags(component).difference(flag_of(trigger).unwrap())
                == flags_before.flags(component).difference(flag_of(trigger).unwrap()));
        }
    }
    assert forall|component: ComponentId|
        trigger != on_insert() implies (#[trigger] flags_after.flags(component)).contains(
        ArchetypeFlags::for_on_insert(),
    ) == flags_before.flags(component).contains(ArchetypeFlags::for_on_insert()) by {
        if flag_of(trigger).is_some() {
            assert(flags_after.flags(component).difference(flag_of(trigger).unwrap())
                == flags_before.flags(component).difference(flag_of(trigger).unwrap()));
        }
    }
    assert forall|component: ComponentId|
        trigger != on_remove() implies (#[trigger] flags_after.flags(component)).contains(
        ArchetypeFlags::for_on_remove(),
    ) == flags_before.flags(component).contains(ArchetypeFlags::for_on_remove()) by {
        if flag_of(trigger).is_some() {
            assert(flags_after.flags(component).difference(flag_of(trigger).unwrap())
                == flags_before.flags(component).difference(flag_of(trigger).unwrap()));
        }
    }
}

} // verus!
