//! The store as a mathematical value, and what each structural operation
//! makes of it: the next state and the signals that are dispatched.

use vstd::prelude::*;
use crate::cache_model::{Invocation, ObserverCache};
use crate::entity::{
    ComponentId,
    Entity,
    PLACEHOLDER_ID,
    RESERVED_IDS,
    on_add,
    on_insert,
    on_remove,
};
use crate::listeners::ObserverRunner;
use crate::table::{
    Entries,
    entries_get,
    entries_has,
    entries_insert,
    entries_keys,
    entries_remove,
    entries_unique,
};

verus! {

/// A structural change that was asked for while listeners ran, to be applied
/// once they are done.
#[derive(Clone, Copy, Debug, PartialEq, Eq, Structural)]
pub enum Command {
    /// Attach `component` with `value` to the row `entity`.
    Insert { entity: Entity, component: ComponentId, value: usize },
    /// Take `component` from the row `entity`.
    Remove { entity: Entity, component: ComponentId },
    /// Destroy the row `entity`.
    Despawn { entity: Entity },
    /// Send a signal of kind `trigger` about `target`, which may be the
    /// placeholder.
    Trigger { trigger: ComponentId, target: Entity },
}

/// One dispatch as a value: its number and its steps.
pub struct DispatchSteps {
    pub id: u64,
    pub steps: Seq<Invocation>,
}

/// What the store keeps of a listener.
pub struct ListenerState {
    pub triggers: Seq<ComponentId>,
    pub components: Seq<ComponentId>,
    pub sources: Seq<Entity>,
    pub runner: ObserverRunner,
    /// Number of the last dispatch in which the listener ran.
    pub last_trigger_id: u64,
}

/// The row that a bundle of components makes: the components in the order of
/// the bundle, a repeated component with the value given last.
pub open spec fn bundle_row(bundle: Seq<(ComponentId, usize)>) -> Entries<usize>
    decreases bundle.len(),
{
    if bundle.len() == 0 {
        Seq::empty()
    } else {
        entries_insert(bundle_row(bundle.drop_last()), bundle.last().0, bundle.last().1)
    }
}

/// The component that a type key is registered under, if it is registered.
pub open spec fn registry_get(registry: Seq<(u64, ComponentId)>, key: u64) -> Option<ComponentId> {
    if exists|i: int| 0 <= i < registry.len() && (#[trigger] registry[i]).0 == key {
        Some(registry[choose|i: int| 0 <= i < registry.len() && (#[trigger] registry[i]).0 == key].1)
    } else {
        None
    }
}

/// No type key is registered twice.
pub open spec fn registry_unique(registry: Seq<(u64, ComponentId)>) -> bool {
    forall|i: int, j: int|
        0 <= i < j < registry.len() ==> (#[trigger] registry[i]).0 != (#[trigger] registry[j]).0
}

/// Whether two entries are about the same listener with the same descriptor
/// and routine; the number of the last run may differ.
pub open spec fn same_listener(a: (Entity, ListenerState), b: (Entity, ListenerState)) -> bool {
    &&& a.0 == b.0
    &&& a.1.triggers == b.1.triggers
    &&& a.1.components == b.1.components
    &&& a.1.sources == b.1.sources
    &&& a.1.runner == b.1.runner
}

/// The store.
pub struct WorldState {
    /// The rows in the order in which they were created, each with its
    /// components and their values.
    pub rows: Entries<Entries<usize>>,
    /// The number of the next identifier to hand out.
    pub next_id: u64,
    /// The component kinds that were registered by type key.
    pub registry: Seq<(u64, ComponentId)>,
    /// The values that belong to the store as a whole.
    pub resources: Entries<usize>,
    /// The values that belong to the store as a whole and to the thread that
    /// made them.
    pub non_send: Entries<usize>,
    /// The events that were sent, by kind, oldest first.
    pub events: Entries<Seq<usize>>,
    /// The listeners, by their rows.
    pub listeners: Entries<ListenerState>,
    /// The observer cache.
    pub observers: ObserverCache,
    /// The structural changes that wait to be applied, oldest first.
    pub commands: Seq<Command>,
    /// The number of the last dispatch.
    pub last_trigger_id: u64,
}

/// The number that follows `id` in the count of dispatches.
pub open spec fn trigger_id_after(id: u64) -> u64 {
    if id == u64::MAX {
        0
    } else {
        (id + 1) as u64
    }
}

impl WorldState {
    /// The store without rows, listeners or anything else; the first
    /// identifiers are kept for the built-in signal kinds.
    pub open spec fn empty() -> WorldState {
        WorldState {
            rows: Seq::empty(),
            next_id: RESERVED_IDS,
            registry: Seq::empty(),
            resources: Seq::empty(),
            non_send: Seq::empty(),
            events: Seq::empty(),
            listeners: Seq::empty(),
            observers: ObserverCache::empty(),
            commands: Seq::empty(),
            last_trigger_id: 0,
        }
    }

    /// What holds of every store: no row, component of a row, resource, event
    /// kind, listener or type key occurs twice, every row was given its
    /// identifier by the store, and the cache is well formed.
    pub open spec fn wf(self) -> bool {
        &&& entries_unique(self.rows)
        &&& forall|i: int|
            0 <= i < self.rows.len() ==> entries_unique((#[trigger] self.rows[i]).1)
                && self.rows[i].0.id < self.next_id
        &&& RESERVED_IDS <= self.next_id <= PLACEHOLDER_ID
        &&& registry_unique(self.registry)
        &&& entries_unique(self.resources)
        &&& entries_unique(self.non_send)
        &&& entries_unique(self.events)
        &&& entries_unique(self.listeners)
        &&& self.observers.wf()
    }

    pub open spec fn has_row(self, entity: Entity) -> bool {
        entries_has(self.rows, entity)
    }

    /// The components of `entity` with their values; none where there is no
    /// such row.
    pub open spec fn row(self, entity: Entity) -> Entries<usize> {
        match entries_get(self.rows, entity) {
            Some(row) => row,
            None => Seq::empty(),
        }
    }

    /// The store after one more dispatch was counted.
    pub open spec fn counted(self) -> WorldState {
        WorldState { last_trigger_id: trigger_id_after(self.last_trigger_id), ..self }
    }

    /// The next dispatch, were it one of `trigger` about `source` that
    /// touched `components`.
    pub open spec fn signal(
        self,
        trigger: ComponentId,
        source: Entity,
        components: Seq<ComponentId>,
    ) -> DispatchSteps {
        DispatchSteps {
            id: trigger_id_after(self.last_trigger_id),
            steps: self.observers.dispatch(trigger, source, components),
        }
    }

    /// The store with `row` as the components of `entity`.
    pub open spec fn with_row(self, entity: Entity, row: Entries<usize>) -> WorldState {
        WorldState { rows: entries_insert(self.rows, entity, row), ..self }
    }

    /// The signals that attaching `component` to the row `entity` sends: that
    /// of addition where the row lacked the component, then that of
    /// insertion.
    pub open spec fn insert_signals(self, entity: Entity, component: ComponentId) -> Seq<
        DispatchSteps,
    > {
        if entries_has(self.row(entity), component) {
            seq![self.signal(on_insert(), entity, seq![component])]
        } else {
            seq![
                self.signal(on_add(), entity, seq![component]),
                self.counted().signal(on_insert(), entity, seq![component]),
            ]
        }
    }

    /// The store after `component` was attached to the row `entity` with
    /// `value`.
    pub open spec fn inserted(self, entity: Entity, component: ComponentId, value: usize) -> WorldState {
        let changed = self.with_row(entity, entries_insert(self.row(entity), component, value));
        if entries_has(self.row(entity), component) {
            changed.counted()
        } else {
            changed.counted().counted()
        }
    }

    /// The signals that taking `component` from the row `entity` sends: that
    /// of removal where the row had the component.
    pub open spec fn remove_signals(self, entity: Entity, component: ComponentId) -> Seq<
        DispatchSteps,
    > {
        if entries_has(self.row(entity), component) {
            seq![self.signal(on_remove(), entity, seq![component])]
        } else {
            Seq::empty()
        }
    }

    /// The store after `component` was taken from the row `entity`.
    pub open spec fn removed(self, entity: Entity, component: ComponentId) -> WorldState {
        if entries_has(self.row(entity), component) {
            self.with_row(entity, entries_remove(self.row(entity), component)).counted()
        } else {
            self
        }
    }

    /// The signals that creating a row with the components of `bundle`
    /// sends: none for an empty bundle, else that of addition and that of
    /// insertion, each for all components of the row.
    pub open spec fn spawn_signals(self, bundle: Seq<(ComponentId, usize)>) -> Seq<DispatchSteps> {
        let entity = Entity { id: self.next_id };
        if bundle.len() == 0 {
            Seq::empty()
        } else {
            seq![
                self.signal(on_add(), entity, entries_keys(bundle_row(bundle))),
                self.counted().signal(on_insert(), entity, entries_keys(bundle_row(bundle))),
            ]
        }
    }

    /// The store after a row with the components of `bundle` was created.
    pub open spec fn spawned(self, bundle: Seq<(ComponentId, usize)>) -> WorldState {
        let entity = Entity { id: self.next_id };
        let grown = WorldState {
            rows: self.rows.push((entity, bundle_row(bundle))),
            next_id: (self.next_id + 1) as u64,
            ..self
        };
        if bundle.len() == 0 {
            grown
        } else {
            grown.counted().counted()
        }
    }

    /// The signals that destroying the row `entity` sends: that of removal
    /// for all its components, where it has any.
    pub open spec fn despawn_signals(self, entity: Entity) -> Seq<DispatchSteps> {
        if self.row(entity).len() == 0 {
            Seq::empty()
        } else {
            seq![self.signal(on_remove(), entity, entries_keys(self.row(entity)))]
        }
    }

    /// The store after the row `entity` was destroyed. A listener that lived
    /// on the row is unregistered with the descriptor it was registered with.
    pub open spec fn despawned(self, entity: Entity) -> WorldState {
        let counted = if self.row(entity).len() == 0 {
            self
        } else {
            self.counted()
        };
        let observers = match entries_get(self.listeners, entity) {
            Some(listener) => self.observers.unregister(
                entity,
                listener.triggers,
                listener.components,
                listener.sources,
            ),
            None => self.observers,
        };
        WorldState {
            rows: entries_remove(self.rows, entity),
            listeners: entries_remove(self.listeners, entity),
            observers,
            ..counted
        }
    }

    /// The store after a listener was created on a new row and registered.
    pub open spec fn observed(
        self,
        triggers: Seq<ComponentId>,
        components: Seq<ComponentId>,
        sources: Seq<Entity>,
        runner: ObserverRunner,
    ) -> WorldState {
        let entity = Entity { id: self.next_id };
        WorldState {
            rows: self.rows.push((entity, Seq::empty())),
            next_id: (self.next_id + 1) as u64,
            listeners: entries_insert(
                self.listeners,
                entity,
                ListenerState { triggers, components, sources, runner, last_trigger_id: 0 },
            ),
            observers: self.observers.register(entity, runner, triggers, components, sources),
            ..self
        }
    }

    /// The signals that applying `command` sends. A command about a row that
    /// is gone sends none.
    pub open spec fn command_signals(self, command: Command) -> Seq<DispatchSteps> {
        match command {
            Command::Insert { entity, component, value } => if self.has_row(entity) {
                self.insert_signals(entity, component)
            } else {
                Seq::empty()
            },
            Command::Remove { entity, component } => if self.has_row(entity) {
                self.remove_signals(entity, component)
            } else {
                Seq::empty()
            },
            Command::Despawn { entity } => if self.has_row(entity) {
                self.despawn_signals(entity)
            } else {
                Seq::empty()
            },
            Command::Trigger { trigger, target } => seq![self.signal(trigger, target, Seq::empty())],
        }
    }

    /// The store after `command` was applied. A command about a row that is
    /// gone changes nothing.
    pub open spec fn applied(self, command: Command) -> WorldState {
        match command {
            Command::Insert { entity, component, value } => if self.has_row(entity) {
                self.inserted(entity, component, value)
            } else {
                self
            },
            Command::Remove { entity, component } => if self.has_row(entity) {
                self.removed(entity, component)
            } else {
                self
            },
            Command::Despawn { entity } => if self.has_row(entity) {
                self.despawned(entity)
            } else {
                self
            },
            Command::Trigger { trigger, target } => self.counted(),
        }
    }

    /// The store without the oldest command of its queue.
    pub open spec fn unqueued(self) -> WorldState {
        WorldState { commands: self.commands.drop_first(), ..self }
    }

    /// Whether the listener `observer` is to run in the dispatch with the
    /// number `dispatch`: it is there and has not run in that dispatch.
    pub open spec fn may_run(self, observer: Entity, dispatch: u64) -> bool {
        match entries_get(self.listeners, observer) {
            Some(listener) => listener.last_trigger_id != dispatch,
            None => false,
        }
    }

    /// The store after the listener `observer`, if it is there, was marked as
    /// having run in the dispatch with the number `dispatch`.
    pub open spec fn claimed(self, observer: Entity, dispatch: u64) -> WorldState {
        match entries_get(self.listeners, observer) {
            Some(listener) => WorldState {
                listeners: entries_insert(
                    self.listeners,
                    observer,
                    ListenerState { last_trigger_id: dispatch, ..listener },
                ),
                ..self
            },
            None => self,
        }
    }

    /// The store after the component kind with the type key `key` was
    /// registered, which changes nothing where it was registered before.
    pub open spec fn with_component(self, key: u64) -> WorldState {
        if registry_get(self.registry, key).is_some() {
            self
        } else {
            WorldState {
                registry: self.registry.push((key, Entity { id: self.next_id })),
                next_id: (self.next_id + 1) as u64,
                ..self
            }
        }
    }

    /// The value of `component` on the row `entity`, if the row exists and
    /// has the component.
    pub open spec fn value(self, entity: Entity, component: ComponentId) -> Option<usize> {
        entries_get(self.row(entity), component)
    }

    /// The store with `value` as the value of `component` on the row
    /// `entity`.
    pub open spec fn with_value(self, entity: Entity, component: ComponentId, value: usize) -> WorldState {
        self.with_row(entity, entries_insert(self.row(entity), component, value))
    }

    /// The events of kind `kind` that were sent; none where the kind was not
    /// added to the store.
    pub open spec fn events_of(self, kind: ComponentId) -> Seq<usize> {
        match entries_get(self.events, kind) {
            Some(sent) => sent,
            None => Seq::empty(),
        }
    }

    /// The store after the events `values` of the kind `kind` were sent,
    /// which changes nothing where the kind was not added to the store.
    pub open spec fn sent(self, kind: ComponentId, values: Seq<usize>) -> WorldState {
        if entries_has(self.events, kind) {
            WorldState {
                events: entries_insert(self.events, kind, self.events_of(kind) + values),
                ..self
            }
        } else {
            self
        }
    }

    /// What listeners may not change: the rows and their components, the
    /// identifiers handed out, the registered component kinds and everything
    /// about listeners but the number of their last run.
    pub open spec fn same_structure(self, other: WorldState) -> bool {
        &&& entries_keys(self.rows) == entries_keys(other.rows)
        &&& forall|i: int|
            0 <= i < self.rows.len() ==> entries_keys((#[trigger] self.rows[i]).1) == entries_keys(
                other.rows[i].1,
            )
        &&& self.next_id == other.next_id
        &&& self.registry == other.registry
        &&& entries_keys(self.resources) == entries_keys(other.resources)
        &&& entries_keys(self.non_send) == entries_keys(other.non_send)
        &&& entries_keys(self.events) == entries_keys(other.events)
        &&& self.observers == other.observers
        &&& self.listeners.len() == other.listeners.len()
        &&& forall|i: int|
            0 <= i < self.listeners.len() ==> same_listener(
                #[trigger] self.listeners[i],
                other.listeners[i],
            )
    }
}

} // verus!
