//! The observer cache as a mathematical value: what is registered where, what
//! registration and unregistration change, and which listeners a signal
//! reaches, in which order.

use vstd::prelude::*;
use crate::archetype::ArchetypeFlags;
use crate::entity::{ComponentId, Entity, on_add, on_insert, on_remove};
use crate::listeners::{Listeners, ObserverRunner};
use crate::table::{entries_insert, entries_remove, entries_unique};

verus! {

/// What a listener is told about the signal that reached it.
#[derive(Clone, Copy, Debug, PartialEq, Eq, Structural)]
pub struct ObserverTrigger {
    /// The row of the listener itself.
    pub observer: Entity,
    /// The kind of the signal.
    pub trigger: ComponentId,
    /// The row that the signal is about, or the placeholder.
    pub source: Entity,
}

/// One step of a dispatch: the routine to run and what it is told.
#[derive(Clone, Copy, Debug, PartialEq, Eq, Structural)]
pub struct Invocation {
    pub runner: ObserverRunner,
    pub trigger: ObserverTrigger,
}

/// Listeners per target row.
pub type Targets = Map<Entity, Listeners>;

/// The listeners registered for `source`, none where it has no entry.
pub open spec fn targets_get(m: Targets, source: Entity) -> Listeners {
    if m.contains_key(source) {
        m[source]
    } else {
        Seq::empty()
    }
}

/// `observer` registered for the one target `source`.
pub open spec fn target_insert(
    m: Targets,
    source: Entity,
    observer: Entity,
    runner: ObserverRunner,
) -> Targets {
    m.insert(source, entries_insert(targets_get(m, source), observer, runner))
}

/// `observer` taken from the listeners of `source`; an entry left without
/// listeners goes.
pub open spec fn target_remove(m: Targets, source: Entity, observer: Entity) -> Targets {
    if !m.contains_key(source) {
        m
    } else if entries_remove(m[source], observer).len() == 0 {
        m.remove(source)
    } else {
        m.insert(source, entries_remove(m[source], observer))
    }
}

/// `observer` registered for each of `sources`, one after the other.
pub open spec fn targets_insert(
    m: Targets,
    sources: Seq<Entity>,
    observer: Entity,
    runner: ObserverRunner,
) -> Targets
    decreases sources.len(),
{
    if sources.len() == 0 {
        m
    } else {
        target_insert(
            targets_insert(m, sources.drop_last(), observer, runner),
            sources.last(),
            observer,
            runner,
        )
    }
}

/// `observer` taken from the listeners of each of `sources`.
pub open spec fn targets_remove(m: Targets, sources: Seq<Entity>, observer: Entity) -> Targets
    decreases sources.len(),
{
    if sources.len() == 0 {
        m
    } else {
        target_remove(targets_remove(m, sources.drop_last(), observer), sources.last(), observer)
    }
}

/// Every entry holds at least one listener and none twice.
pub open spec fn targets_wf(m: Targets) -> bool {
    forall|source: Entity| #[trigger]
        m.contains_key(source) ==> entries_unique(m[source]) && m[source].len() > 0
}

/// The listeners of one signal kind that are scoped to one component.
pub struct ComponentListeners {
    /// Listeners for the component on any row.
    pub map: Listeners,
    /// Listeners for the component on one target row.
    pub entity_map: Targets,
}

impl ComponentListeners {
    pub open spec fn empty() -> ComponentListeners {
        ComponentListeners { map: Seq::empty(), entity_map: Map::empty() }
    }

    pub open spec fn is_empty(self) -> bool {
        self.map.len() == 0 && self.entity_map.is_empty()
    }

    pub open spec fn wf(self) -> bool {
        entries_unique(self.map) && targets_wf(self.entity_map)
    }

    /// `observer` registered for the component: on every row where `sources`
    /// is empty, else on each row of `sources`.
    pub open spec fn insert(
        self,
        observer: Entity,
        runner: ObserverRunner,
        sources: Seq<Entity>,
    ) -> ComponentListeners {
        if sources.len() == 0 {
            ComponentListeners { map: entries_insert(self.map, observer, runner), ..self }
        } else {
            ComponentListeners {
                entity_map: targets_insert(self.entity_map, sources, observer, runner),
                ..self
            }
        }
    }

    /// The mirror image of `insert`.
    pub open spec fn remove(self, observer: Entity, sources: Seq<Entity>) -> ComponentListeners {
        if sources.len() == 0 {
            ComponentListeners { map: entries_remove(self.map, observer), ..self }
        } else {
            ComponentListeners {
                entity_map: targets_remove(self.entity_map, sources, observer),
                ..self
            }
        }
    }

    /// The listeners that a signal about `source` reaches through this
    /// component: those for any row, then those for `source`.
    pub open spec fn bucket(self, source: Entity) -> Listeners {
        if source != Entity::placeholder() {
            self.map + targets_get(self.entity_map, source)
        } else {
            self.map
        }
    }
}

/// Listeners per component.
pub type Components = Map<ComponentId, ComponentListeners>;

/// What is registered for `component`, nothing where it has no entry.
pub open spec fn components_get(m: Components, component: ComponentId) -> ComponentListeners {
    if m.contains_key(component) {
        m[component]
    } else {
        ComponentListeners::empty()
    }
}

/// `observer` registered for the one component.
pub open spec fn component_insert(
    m: Components,
    component: ComponentId,
    observer: Entity,
    runner: ObserverRunner,
    sources: Seq<Entity>,
) -> Components {
    m.insert(component, components_get(m, component).insert(observer, runner, sources))
}

/// `observer` unregistered for the one component; an entry left without any
/// listener goes.
pub open spec fn component_remove(
    m: Components,
    component: ComponentId,
    observer: Entity,
    sources: Seq<Entity>,
) -> Components {
    if !m.contains_key(component) {
        m
    } else if m[component].remove(observer, sources).is_empty() {
        m.remove(component)
    } else {
        m.insert(component, m[component].remove(observer, sources))
    }
}

/// `observer` registered for each of `components`, one after the other.
pub open spec fn components_insert(
    m: Components,
    components: Seq<ComponentId>,
    observer: Entity,
    runner: ObserverRunner,
    sources: Seq<Entity>,
) -> Components
    decreases components.len(),
{
    if components.len() == 0 {
        m
    } else {
        component_insert(
            components_insert(m, components.drop_last(), observer, runner, sources),
            components.last(),
            observer,
            runner,
            sources,
        )
    }
}

/// `observer` unregistered for each of `components`.
pub open spec fn components_remove(
    m: Components,
    components: Seq<ComponentId>,
    observer: Entity,
    sources: Seq<Entity>,
) -> Components
    decreases components.len(),
{
    if components.len() == 0 {
        m
    } else {
        component_remove(
            components_remove(m, components.drop_last(), observer, sources),
            components.last(),
            observer,
            sources,
        )
    }
}

/// Every entry is well formed and holds at least one listener.
pub open spec fn components_wf(m: Components) -> bool {
    forall|component: ComponentId| #[trigger]
        m.contains_key(component) ==> m[component].wf() && !m[component].is_empty()
}

/// The listeners of one signal kind.
pub struct SignalListeners {
    /// Listeners without any scope.
    pub map: Listeners,
    /// Listeners scoped to a component, and possibly to a row as well.
    pub component_observers: Components,
    /// Listeners scoped to a row only.
    pub entity_observers: Targets,
}

impl SignalListeners {
    pub open spec fn empty() -> SignalListeners {
        SignalListeners {
            map: Seq::empty(),
            component_observers: Map::empty(),
            entity_observers: Map::empty(),
        }
    }

    pub open spec fn wf(self) -> bool {
        entries_unique(self.map) && components_wf(self.component_observers) && targets_wf(
            self.entity_observers,
        )
    }

    /// `observer` registered for this signal kind under the scope that
    /// `components` and `sources` give.
    pub open spec fn register(
        self,
        observer: Entity,
        runner: ObserverRunner,
        components: Seq<ComponentId>,
        sources: Seq<Entity>,
    ) -> SignalListeners {
        if components.len() == 0 && sources.len() == 0 {
            SignalListeners { map: entries_insert(self.map, observer, runner), ..self }
        } else if components.len() == 0 {
            SignalListeners {
                entity_observers: targets_insert(self.entity_observers, sources, observer, runner),
                ..self
            }
        } else {
            SignalListeners {
                component_observers: components_insert(
                    self.component_observers,
                    components,
                    observer,
                    runner,
                    sources,
                ),
                ..self
            }
        }
    }

    /// The mirror image of `register`.
    pub open spec fn unregister(
        self,
        observer: Entity,
        components: Seq<ComponentId>,
        sources: Seq<Entity>,
    ) -> SignalListeners {
        if components.len() == 0 && sources.len() == 0 {
            SignalListeners { map: entries_remove(self.map, observer), ..self }
        } else if components.len() == 0 {
            SignalListeners {
                entity_observers: targets_remove(self.entity_observers, sources, observer),
                ..self
            }
        } else {
            SignalListeners {
                component_observers: components_remove(
                    self.component_observers,
                    components,
                    observer,
                    sources,
                ),
                ..self
            }
        }
    }

    /// The listeners scoped to the row `source` only that a signal about
    /// `source` reaches.
    pub open spec fn targeted(self, source: Entity) -> Listeners {
        if source != Entity::placeholder() {
            targets_get(self.entity_observers, source)
        } else {
            Seq::empty()
        }
    }

    /// The listeners that a signal reaches through the touched components, in
    /// the order of `components`.
    pub open spec fn through_components(
        self,
        source: Entity,
        components: Seq<ComponentId>,
    ) -> Listeners
        decreases components.len(),
    {
        if components.len() == 0 {
            Seq::empty()
        } else {
            self.through_components(source, components.drop_last()) + components_get(
                self.component_observers,
                components.last(),
            ).bucket(source)
        }
    }

    /// All listeners that a signal about `source` that touched `components`
    /// reaches, in the order in which they run: those without scope, those of
    /// the row, then component by component.
    pub open spec fn reached(self, source: Entity, components: Seq<ComponentId>) -> Listeners {
        self.map + self.targeted(source) + self.through_components(source, components)
    }
}

/// The whole cache: one set of listeners per signal kind, the three built-in
/// kinds apart from the others.
pub struct ObserverCache {
    pub on_add: SignalListeners,
    pub on_insert: SignalListeners,
    pub on_remove: SignalListeners,
    pub cache: Map<ComponentId, SignalListeners>,
}

/// The step of a dispatch of `trigger` about `source` that runs `listener`.
pub open spec fn invocation_of(
    listener: (Entity, ObserverRunner),
    trigger: ComponentId,
    source: Entity,
) -> Invocation {
    Invocation {
        runner: listener.1,
        trigger: ObserverTrigger { observer: listener.0, trigger, source },
    }
}

/// The steps that run `listeners`, in their order.
pub open spec fn invocations(listeners: Listeners, trigger: ComponentId, source: Entity) -> Seq<
    Invocation,
> {
    Seq::new(listeners.len(), |i: int| invocation_of(listeners[i], trigger, source))
}

/// The steps for two runs of listeners, one after the other.
pub proof fn lemma_invocations_add(a: Listeners, b: Listeners, trigger: ComponentId, source: Entity)
    ensures
        invocations(a + b, trigger, source) == invocations(a, trigger, source) + invocations(
            b,
            trigger,
            source,
        ),
{
    assert(invocations(a + b, trigger, source) =~= invocations(a, trigger, source) + invocations(
        b,
        trigger,
        source,
    ));
}

impl ObserverCache {
    pub open spec fn empty() -> ObserverCache {
        ObserverCache {
            on_add: SignalListeners::empty(),
            on_insert: SignalListeners::empty(),
            on_remove: SignalListeners::empty(),
            cache: Map::empty(),
        }
    }

    pub open spec fn wf(self) -> bool {
        &&& self.on_add.wf()
        &&& self.on_insert.wf()
        &&& self.on_remove.wf()
        &&& forall|trigger: ComponentId| #[trigger]
            self.cache.contains_key(trigger) ==> self.cache[trigger].wf()
    }

    /// The listeners of `trigger`, if the cache has a place for that kind.
    pub open spec fn lookup(self, trigger: ComponentId) -> Option<SignalListeners> {
        if trigger == on_add() {
            Some(self.on_add)
        } else if trigger == on_insert() {
            Some(self.on_insert)
        } else if trigger == on_remove() {
            Some(self.on_remove)
        } else if self.cache.contains_key(trigger) {
            Some(self.cache[trigger])
        } else {
            None
        }
    }

    /// The listeners of `trigger`, none where the cache has no place for it.
    pub open spec fn slot(self, trigger: ComponentId) -> SignalListeners {
        match self.lookup(trigger) {
            Some(listeners) => listeners,
            None => SignalListeners::empty(),
        }
    }

    /// The cache with `listeners` in the place of `trigger`.
    pub open spec fn with_slot(self, trigger: ComponentId, listeners: SignalListeners) -> ObserverCache {
        if trigger == on_add() {
            ObserverCache { on_add: listeners, ..self }
        } else if trigger == on_insert() {
            ObserverCache { on_insert: listeners, ..self }
        } else if trigger == on_remove() {
            ObserverCache { on_remove: listeners, ..self }
        } else {
            ObserverCache { cache: self.cache.insert(trigger, listeners), ..self }
        }
    }

    /// `observer` registered for each signal kind of `triggers`, under the
    /// scope that `components` and `sources` give.
    pub open spec fn register(
        self,
        observer: Entity,
        runner: ObserverRunner,
        triggers: Seq<ComponentId>,
        components: Seq<ComponentId>,
        sources: Seq<Entity>,
    ) -> ObserverCache
        decreases triggers.len(),
    {
        if triggers.len() == 0 {
            self
        } else {
            let before = self.register(observer, runner, triggers.drop_last(), components, sources);
            before.with_slot(
                triggers.last(),
                before.slot(triggers.last()).register(observer, runner, components, sources),
            )
        }
    }

    /// The mirror image of `register`.
    pub open spec fn unregister(
        self,
        observer: Entity,
        triggers: Seq<ComponentId>,
        components: Seq<ComponentId>,
        sources: Seq<Entity>,
    ) -> ObserverCache
        decreases triggers.len(),
    {
        if triggers.len() == 0 {
            self
        } else {
            let before = self.unregister(observer, triggers.drop_last(), components, sources);
            before.with_slot(
                triggers.last(),
                before.slot(triggers.last()).unregister(observer, components, sources),
            )
        }
    }

    /// The flags of the built-in signal kinds for which a listener is scoped
    /// to `component`.
    pub open spec fn flags_for(self, component: ComponentId) -> ArchetypeFlags {
        ArchetypeFlags {
            on_add_observer: self.on_add.component_observers.contains_key(component),
            on_insert_observer: self.on_insert.component_observers.contains_key(component),
            on_remove_observer: self.on_remove.component_observers.contains_key(component),
        }
    }

    /// The listeners that a signal reaches, in the order in which they run.
    pub open spec fn reached(
        self,
        trigger: ComponentId,
        source: Entity,
        components: Seq<ComponentId>,
    ) -> Listeners {
        self.slot(trigger).reached(source, components)
    }

    /// The steps of the dispatch of a signal of kind `trigger` about `source`
    /// that touched `components`.
    pub open spec fn dispatch(
        self,
        trigger: ComponentId,
        source: Entity,
        components: Seq<ComponentId>,
    ) -> Seq<Invocation> {
        invocations(self.reached(trigger, source, components), trigger, source)
    }
}

} // verus!
