//! The store: rows with their components, the listeners and their cache, and
//! the queue of structural changes that wait to be applied.
//!
//! The store does not run listeners. A structural operation returns the
//! dispatches it caused; whoever drives the store runs their steps and then
//! applies the queued changes one by one, each of which may cause further
//! dispatches.

use vstd::prelude::*;
use crate::archetype::{ArchetypeFlags, Archetypes};
use crate::cache_model::Invocation;
use crate::entity::{ComponentId, Entity, PLACEHOLDER_ID, RESERVED_IDS, on_add, on_insert, on_remove};
use crate::listeners::ObserverRunner;
use crate::observer::{ObserverDescriptor, Observers, flags_agree};
use crate::query::QueryState;
use crate::table::{
    Entries,
    Table,
    entries_get,
    entries_has,
    entries_index,
    entries_insert,
    entries_keys,
    entries_map,
    entries_remove,
    entries_unique,
    lemma_entries_insert,
    lemma_entries_map,
    lemma_entries_map_insert,
    lemma_entries_remove,
};
use crate::world_model::{
    Command,
    DispatchSteps,
    ListenerState,
    WorldState,
    bundle_row,
    registry_get,
    registry_unique,
};

verus! {

/// The components of one row, each with its value.
pub struct Row {
    components: Table<usize>,
}

impl View for Row {
    type V = Entries<usize>;

    closed spec fn view(&self) -> Entries<usize> {
        self.components@
    }
}

impl Row {
    pub open spec fn wf(&self) -> bool {
        entries_unique(self@)
    }

    /// A row without components.
    pub fn new() -> (row: Row)
        ensures
            row@ == Entries::<usize>::empty(),
            row.wf(),
    {
        Row { components: Table::new() }
    }

    /// The components of the row, in the order in which they were attached.
    pub fn component_ids(&self) -> (ids: Vec<ComponentId>)
        ensures
            ids@ == entries_keys(self@),
    {
        self.components.keys()
    }

    /// Number of components.
    pub fn len(&self) -> (n: usize)
        ensures
            n == self@.len(),
    {
        self.components.len()
    }

    /// Whether the row has `component`.
    pub fn contains(&self, component: ComponentId) -> (b: bool)
        requires
            self.wf(),
        ensures
            b == entries_has(self@, component),
    {
        self.components.contains(component)
    }

    /// The value of `component` on this row.
    pub fn get(&self, component: ComponentId) -> (value: Option<usize>)
        requires
            self.wf(),
        ensures
            value == entries_get(self@, component),
    {
        match self.components.get(component) {
            Some(value) => Some(*value),
            None => None,
        }
    }

    /// The value of `component` on this row, to be changed in place.
    pub fn get_mut(&mut self, component: ComponentId) -> (value: Option<&mut usize>)
        requires
            old(self).wf(),
        ensures
            final(self).wf(),
            match value {
                Some(v) => entries_get(old(self)@, component) == Some(*v) && final(self)@
                    == entries_insert(old(self)@, component, *final(v)),
                None => entries_get(old(self)@, component).is_none() && final(self)@ == old(self)@,
            },
    {
        self.components.get_mut(component)
    }

    /// Gives `component` the value `value`, whether or not the row had the
    /// component, and returns the value it had.
    pub fn insert(&mut self, component: ComponentId, value: usize) -> (previous: Option<usize>)
        requires
            old(self).wf(),
        ensures
            final(self).wf(),
            final(self)@ == entries_insert(old(self)@, component, value),
            previous == entries_get(old(self)@, component),
    {
        self.components.insert(component, value)
    }

    /// Takes `component` from the row and returns the value it had.
    pub fn remove(&mut self, component: ComponentId) -> (previous: Option<usize>)
        requires
            old(self).wf(),
        ensures
            final(self).wf(),
            final(self)@ == entries_remove(old(self)@, component),
            previous == entries_get(old(self)@, component),
    {
        self.components.remove(component)
    }
}

/// The structural changes that wait to be applied, oldest first.
pub struct CommandQueue {
    commands: Vec<Command>,
}

impl View for CommandQueue {
    type V = Seq<Command>;

    closed spec fn view(&self) -> Seq<Command> {
        self.commands@
    }
}

impl CommandQueue {
    /// An empty queue.
    pub fn new() -> (queue: CommandQueue)
        ensures
            queue@ == Seq::<Command>::empty(),
    {
        CommandQueue { commands: Vec::new() }
    }

    /// Number of commands that wait.
    pub fn len(&self) -> (n: usize)
        ensures
            n == self@.len(),
    {
        self.commands.len()
    }

    /// Queues `command` behind those that wait.
    pub fn push(&mut self, command: Command)
        ensures
            final(self)@ == old(self)@.push(command),
    {
        self.commands.push(command);
    }

    /// Queues the attachment of `component` with `value` to the row `entity`.
    pub fn insert(&mut self, entity: Entity, component: ComponentId, value: usize)
        ensures
            final(self)@ == old(self)@.push(Command::Insert { entity, component, value }),
    {
        self.commands.push(Command::Insert { entity, component, value });
    }

    /// Queues the removal of `component` from the row `entity`.
    pub fn remove(&mut self, entity: Entity, component: ComponentId)
        ensures
            final(self)@ == old(self)@.push(Command::Remove { entity, component }),
    {
        self.commands.push(Command::Remove { entity, component });
    }

    /// Queues the destruction of the row `entity`.
    pub fn despawn(&mut self, entity: Entity)
        ensures
            final(self)@ == old(self)@.push(Command::Despawn { entity }),
    {
        self.commands.push(Command::Despawn { entity });
    }

    /// Queues a signal of the kind `trigger` about `target`, which may be the
    /// placeholder.
    pub fn trigger(&mut self, trigger: ComponentId, target: Entity)
        ensures
            final(self)@ == old(self)@.push(Command::Trigger { trigger, target }),
    {
        self.commands.push(Command::Trigger { trigger, target });
    }

    /// Takes the oldest command out of the queue.
    pub(crate) fn pop(&mut self) -> (command: Option<Command>)
        ensures
            command.is_some() == (old(self)@.len() > 0),
            command.is_some() ==> command.unwrap() == old(self)@[0] && final(self)@ == old(
                self,
            )@.drop_first(),
            command.is_none() ==> final(self)@ == old(self)@,
    {
        if self.commands.len() == 0 {
            None
        } else {
            let command = self.commands.remove(0);
            proof {
                assert(self.commands@ =~= old(self).commands@.drop_first());
            }
            Some(command)
        }
    }
}

/// What the store keeps of a listener: its descriptor, the routine that runs
/// it and the number of the last dispatch in which it ran.
pub struct ObserverComponent {
    descriptor: ObserverDescriptor,
    runner: ObserverRunner,
    last_trigger_id: u64,
}

impl View for ObserverComponent {
    type V = ListenerState;

    closed spec fn view(&self) -> ListenerState {
        ListenerState {
            triggers: self.descriptor.triggers(),
            components: self.descriptor.components(),
            sources: self.descriptor.sources(),
            runner: self.runner,
            last_trigger_id: self.last_trigger_id,
        }
    }
}

/// One dispatch: its number and the listeners to run, in order.
pub struct Dispatch {
    pub id: u64,
    pub steps: Vec<Invocation>,
}

impl View for Dispatch {
    type V = DispatchSteps;

    open spec fn view(&self) -> DispatchSteps {
        DispatchSteps { id: self.id, steps: self.steps@ }
    }
}

/// The dispatches as values.
pub open spec fn dispatches(list: Seq<Dispatch>) -> Seq<DispatchSteps> {
    Seq::new(list.len(), |i: int| list[i]@)
}

pub open spec fn row_view() -> spec_fn(Row) -> Entries<usize> {
    |row: Row| row@
}

pub open spec fn events_view() -> spec_fn(Vec<usize>) -> Seq<usize> {
    |sent: Vec<usize>| sent@
}

pub open spec fn listener_view() -> spec_fn(ObserverComponent) -> ListenerState {
    |listener: ObserverComponent| listener@
}

/// The store.
pub struct World {
    rows: Table<Row>,
    next_id: u64,
    registry: Vec<(u64, ComponentId)>,
    resources: Table<usize>,
    non_send: Table<usize>,
    events: Table<Vec<usize>>,
    listeners: Table<ObserverComponent>,
    observers: Observers,
    archetypes: Archetypes,
    commands: CommandQueue,
    last_trigger_id: u64,
}

impl View for World {
    type V = WorldState;

    closed spec fn view(&self) -> WorldState {
        WorldState {
            rows: entries_map(self.rows@, row_view()),
            next_id: self.next_id,
            registry: self.registry@,
            resources: self.resources@,
            non_send: self.non_send@,
            events: entries_map(self.events@, events_view()),
            listeners: entries_map(self.listeners@, listener_view()),
            observers: self.observers@,
            commands: self.commands@,
            last_trigger_id: self.last_trigger_id,
        }
    }
}

impl World {
    /// What holds of every store: no row, resource or listener occurs twice,
    /// every identifier in use was handed out, the cache is well formed and
    /// the flags are in step with it.
    pub closed spec fn wf(&self) -> bool {
        &&& self.rows.wf()
        &&& forall|i: int|
            0 <= i < self.rows@.len() ==> (#[trigger] self.rows@[i]).1.wf() && self.rows@[i].0.id
                < self.next_id
        &&& RESERVED_IDS <= self.next_id <= PLACEHOLDER_ID
        &&& registry_unique(self.registry@)
        &&& self.resources.wf()
        &&& self.non_send.wf()
        &&& self.events.wf()
        &&& self.listeners.wf()
        &&& self.observers.wf()
        &&& self.archetypes.wf()
        &&& flags_agree(self.observers@, self.archetypes)
    }

    /// A well-formed store is well formed as a value.
    pub proof fn lemma_wf(self)
        requires
            self.wf(),
        ensures
            self@.wf(),
    {
        let key = Entity { id: 0 };
        lemma_entries_map(self.rows@, row_view(), key);
        lemma_entries_map(self.events@, events_view(), key);
        lemma_entries_map(self.listeners@, listener_view(), key);
        assert forall|i: int| 0 <= i < self@.rows.len() implies entries_unique(
            (#[trigger] self@.rows[i]).1,
        ) && self@.rows[i].0.id < self@.next_id by {
            assert(self.rows@[i].1.wf() && self.rows@[i].0.id < self.next_id);
        }
    }

    /// An empty store.
    pub fn new() -> (world: World)
        ensures
            world.wf(),
            world@ == WorldState::empty(),
    {
        let world = World {
            rows: Table::new(),
            next_id: RESERVED_IDS,
            registry: Vec::new(),
            resources: Table::new(),
            non_send: Table::new(),
            events: Table::new(),
            listeners: Table::new(),
            observers: Observers::new(),
            archetypes: Archetypes::new(),
            commands: CommandQueue::new(),
            last_trigger_id: 0,
        };
        proof {
            assert(world@.rows =~= Seq::empty());
            assert(world@.listeners =~= Seq::empty());
            assert(world@.events =~= Seq::empty());
        }
        world
    }

    /// Counts one more dispatch and returns it: the listeners that a signal
    /// of kind `trigger` about `source` that touched `components` reaches.
    pub fn trigger_observers(
        &mut self,
        trigger: ComponentId,
        source: Entity,
        components: &Vec<ComponentId>,
    ) -> (dispatch: Dispatch)
        requires
            old(self).wf(),
        ensures
            final(self).wf(),
            final(self)@ == old(self)@.counted(),
            dispatch@ == old(self)@.signal(trigger, source, components@),
    {
        self.last_trigger_id = if self.last_trigger_id == u64::MAX {
            0
        } else {
            self.last_trigger_id + 1
        };
        let steps = self.observers.invoke(trigger, source, components);
        Dispatch { id: self.last_trigger_id, steps }
    }

    /// Number of rows.
    pub fn entities_len(&self) -> (n: usize)
        ensures
            n == self@.rows.len(),
    {
        self.rows.len()
    }

    /// Whether `entity` is a row of the store.
    pub fn contains(&self, entity: Entity) -> (b: bool)
        requires
            self.wf(),
        ensures
            b == self@.has_row(entity),
    {
        proof {
            lemma_entries_map(self.rows@, row_view(), entity);
        }
        self.rows.contains(entity)
    }

    /// The row `entity`.
    pub fn get_entity(&self, entity: Entity) -> (row: Option<&Row>)
        requires
            self.wf(),
        ensures
            row.is_some() == self@.has_row(entity),
            row.is_some() ==> row.unwrap()@ == self@.row(entity) && row.unwrap().wf(),
    {
        proof {
            lemma_entries_map(self.rows@, row_view(), entity);
            if entries_has(self.rows@, entity) {
                let i = entries_index(self.rows@, entity);
                assert(0 <= i < self.rows@.len() && self.rows@[i].0 == entity);
                assert(self.rows@[i].1.wf());
            }
        }
        self.rows.get(entity)
    }

    /// Whether the row `entity` exists and has `component`.
    pub fn has_component(&self, entity: Entity, component: ComponentId) -> (b: bool)
        requires
            self.wf(),
        ensures
            b == entries_has(self@.row(entity), component),
    {
        match self.get_entity(entity) {
            Some(row) => row.contains(component),
            None => false,
        }
    }

    /// The value of `component` on the row `entity`, if the row exists and
    /// has the component.
    pub fn get(&self, entity: Entity, component: ComponentId) -> (value: Option<usize>)
        requires
            self.wf(),
        ensures
            value == entries_get(self@.row(entity), component),
    {
        match self.get_entity(entity) {
            Some(row) => row.get(component),
            None => None,
        }
    }

    /// The components of the row `entity`, if the row exists.
    pub fn components_of(&self, entity: Entity) -> (ids: Option<Vec<ComponentId>>)
        requires
            self.wf(),
        ensures
            ids.is_some() == self@.has_row(entity),
            ids.is_some() ==> ids.unwrap()@ == entries_keys(self@.row(entity)),
    {
        match self.get_entity(entity) {
            Some(row) => Some(row.component_ids()),
            None => None,
        }
    }

    /// Whether another identifier can still be handed out.
    pub fn has_free_id(&self) -> (b: bool)
        ensures
            b == (self@.next_id < PLACEHOLDER_ID),
    {
        self.next_id < PLACEHOLDER_ID
    }

    /// Attaches `component` with `value` to the row `entity` and returns the
    /// dispatches this causes: that of addition where the row lacked the
    /// component, then that of insertion. Where there is no such row,
    /// nothing happens and nothing is returned.
    pub fn insert(&mut self, entity: Entity, component: ComponentId, value: usize) -> (r: Option<
        Vec<Dispatch>,
    >)
        requires
            old(self).wf(),
        ensures
            final(self).wf(),
            r.is_some() == old(self)@.has_row(entity),
            r.is_none() ==> final(self)@ == old(self)@,
            r.is_some() ==> final(self)@ == old(self)@.inserted(entity, component, value)
                && dispatches(r.unwrap()@) == old(self)@.insert_signals(entity, component),
    {
        let ghost rows = self.rows@;
        proof {
            lemma_entries_map(rows, row_view(), entity);
            if entries_has(rows, entity) {
                let i = entries_index(rows, entity);
                assert(0 <= i < rows.len() && rows[i].0 == entity);
                assert(rows[i].1.wf());
            }
        }
        let added = match self.rows.get_mut(entity) {
            Some(row) => {
                let previous = row.insert(component, value);
                previous.is_none()
            },
            None => {
                return None;
            },
        };
        proof {
            lemma_rows_update(rows, entity, self.rows@[entries_index(rows, entity)].1);
            assert(self.rows@[entries_index(rows, entity)].0 == entity);
            assert forall|i: int| 0 <= i < self.rows@.len() implies (#[trigger] self.rows@[i]).1.wf()
                && self.rows@[i].0.id < self.next_id by {
                assert(rows[i].1.wf() && rows[i].0.id < self.next_id);
            }
        }
        let mut out: Vec<Dispatch> = Vec::new();
        let mut touched: Vec<ComponentId> = Vec::new();
        touched.push(component);
        assert(touched@ =~= seq![component]);
        if added {
            let dispatch = self.trigger_observers(on_add(), entity, &touched);
            out.push(dispatch);
        }
        let dispatch = self.trigger_observers(on_insert(), entity, &touched);
        out.push(dispatch);
        proof {
            assert(dispatches(out@) =~= old(self)@.insert_signals(entity, component));
        }
        Some(out)
    }

    /// Takes `component` from the row `entity` and returns the dispatches
    /// this causes: that of removal where the row had the component. Where
    /// there is no such row, nothing happens and nothing is returned.
    pub fn remove(&mut self, entity: Entity, component: ComponentId) -> (r: Option<Vec<Dispatch>>)
        requires
            old(self).wf(),
        ensures
            final(self).wf(),
            r.is_some() == old(self)@.has_row(entity),
            r.is_none() ==> final(self)@ == old(self)@,
            r.is_some() ==> final(self)@ == old(self)@.removed(entity, component) && dispatches(
                r.unwrap()@,
            ) == old(self)@.remove_signals(entity, component),
    {
        let ghost rows = self.rows@;
        proof {
            lemma_entries_map(rows, row_view(), entity);
            if entries_has(rows, entity) {
                let i = entries_index(rows, entity);
                assert(0 <= i < rows.len() && rows[i].0 == entity);
                assert(rows[i].1.wf());
            }
        }
        let had = match self.rows.get_mut(entity) {
            Some(row) => {
                let previous = row.remove(component);
                previous.is_some()
            },
            None => {
                return None;
            },
        };
        proof {
            lemma_rows_update(rows, entity, self.rows@[entries_index(rows, entity)].1);
            assert(self.rows@[entries_index(rows, entity)].0 == entity);
            assert forall|i: int| 0 <= i < self.rows@.len() implies (#[trigger] self.rows@[i]).1.wf()
                && self.rows@[i].0.id < self.next_id by {
                assert(rows[i].1.wf() && rows[i].0.id < self.next_id);
            }
            if !had {
                assert(entries_map(self.rows@, row_view()) =~= entries_map(rows, row_view()));
            }
        }
        let mut out: Vec<Dispatch> = Vec::new();
        if had {
            let mut touched: Vec<ComponentId> = Vec::new();
            touched.push(component);
            assert(touched@ =~= seq![component]);
            let dispatch = self.trigger_observers(on_remove(), entity, &touched);
            out.push(dispatch);
        }
        proof {
            assert(dispatches(out@) =~= old(self)@.remove_signals(entity, component));
        }
        Some(out)
    }

    /// Creates a row with the components of `bundle`, in their order, and
    /// returns the row with the dispatches this causes: none for an empty
    /// bundle, else that of addition and that of insertion.
    pub fn spawn(&mut self, bundle: &Vec<(ComponentId, usize)>) -> (r: (Entity, Vec<Dispatch>))
        requires
            old(self).wf(),
            old(self)@.next_id < PLACEHOLDER_ID,
        ensures
            final(self).wf(),
            r.0 == (Entity { id: old(self)@.next_id }),
            final(self)@ == old(self)@.spawned(bundle@),
            dispatches(r.1@) == old(self)@.spawn_signals(bundle@),
    {
        let entity = Entity { id: self.next_id };
        let mut row = Row::new();
        let mut i: usize = 0;
        proof {
            assert(bundle@.take(0) =~= Seq::empty());
        }
        while i < bundle.len()
            invariant
                i <= bundle.len(),
                row.wf(),
                row@ == bundle_row(bundle@.take(i as int)),
            decreases bundle.len() - i,
        {
            row.insert(bundle[i].0, bundle[i].1);
            proof {
                assert(bundle@.take(i + 1).drop_last() =~= bundle@.take(i as int));
            }
            i = i + 1;
        }
        proof {
            assert(bundle@.take(bundle.len() as int) =~= bundle@);
        }
        let touched = row.component_ids();
        let ghost rows = self.rows@;
        proof {
            if entries_has(rows, entity) {
                let k = entries_index(rows, entity);
                assert(0 <= k < rows.len() && rows[k].0 == entity);
                assert(rows[k].0.id < self.next_id);
            }
            lemma_entries_insert(rows, entity, row);
        }
        self.rows.insert(entity, row);
        self.next_id = self.next_id + 1;
        proof {
            assert(entries_map(self.rows@, row_view()) =~= entries_map(rows, row_view()).push(
                (entity, bundle_row(bundle@)),
            ));
            assert forall|k: int| 0 <= k < self.rows@.len() implies (#[trigger] self.rows@[k]).1.wf()
                && self.rows@[k].0.id < self.next_id by {
                if k < rows.len() {
                    assert(rows[k].1.wf() && rows[k].0.id < self.next_id);
                }
            }
        }
        let mut out: Vec<Dispatch> = Vec::new();
        if bundle.len() > 0 {
            let dispatch = self.trigger_observers(on_add(), entity, &touched);
            out.push(dispatch);
            let dispatch = self.trigger_observers(on_insert(), entity, &touched);
            out.push(dispatch);
        }
        proof {
            assert(dispatches(out@) =~= old(self)@.spawn_signals(bundle@));
        }
        (entity, out)
    }

    /// Creates a row without components. No signal is sent.
    pub fn spawn_empty(&mut self) -> (entity: Entity)
        requires
            old(self).wf(),
            old(self)@.next_id < PLACEHOLDER_ID,
        ensures
            final(self).wf(),
            entity == (Entity { id: old(self)@.next_id }),
            final(self)@ == old(self)@.spawned(Seq::empty()),
    {
        let bundle: Vec<(ComponentId, usize)> = Vec::new();
        let spawned = self.spawn(&bundle);
        spawned.0
    }

    /// Destroys the row `entity` and returns the dispatches this causes: that
    /// of removal for all its components, where it has any. A listener that
    /// lived on the row is unregistered. Where there is no such row, nothing
    /// happens and nothing is returned.
    pub fn despawn(&mut self, entity: Entity) -> (r: Option<Vec<Dispatch>>)
        requires
            old(self).wf(),
        ensures
            final(self).wf(),
            r.is_some() == old(self)@.has_row(entity),
            r.is_none() ==> final(self)@ == old(self)@,
            r.is_some() ==> final(self)@ == old(self)@.despawned(entity) && dispatches(r.unwrap()@)
                == old(self)@.despawn_signals(entity),
    {
        let touched = match self.components_of(entity) {
            Some(touched) => touched,
            None => {
                return None;
            },
        };
        let mut out: Vec<Dispatch> = Vec::new();
        if touched.len() > 0 {
            let dispatch = self.trigger_observers(on_remove(), entity, &touched);
            out.push(dispatch);
        }
        let ghost rows = self.rows@;
        let ghost listeners = self.listeners@;
        proof {
            lemma_entries_map(rows, row_view(), entity);
            lemma_entries_map(listeners, listener_view(), entity);
            lemma_entries_remove(rows, entity);
        }
        self.rows.remove(entity);
        proof {
            assert forall|k: int| 0 <= k < self.rows@.len() implies (#[trigger] self.rows@[k]).1.wf()
                && self.rows@[k].0.id < self.next_id by {
                let at = entries_index(rows, entity);
                let from = if k < at {
                    k
                } else {
                    k + 1
                };
                assert(self.rows@[k] == rows[from]);
                assert(rows[from].1.wf() && rows[from].0.id < self.next_id);
            }
        }
        match self.listeners.remove(entity) {
            Some(listener) => {
                self.observers.unregister(&mut self.archetypes, entity, &listener.descriptor);
            },
            None => {},
        }
        proof {
            assert(dispatches(out@) =~= old(self)@.despawn_signals(entity));
        }
        Some(out)
    }

    /// Creates a listener on a new row and registers it for the signal kinds
    /// and the scope of `descriptor`. Returns the row.
    pub fn observer(&mut self, descriptor: ObserverDescriptor, runner: ObserverRunner) -> (entity:
        Entity)
        requires
            old(self).wf(),
            old(self)@.next_id < PLACEHOLDER_ID,
        ensures
            final(self).wf(),
            entity == (Entity { id: old(self)@.next_id }),
            final(self)@ == old(self)@.observed(
                descriptor.triggers(),
                descriptor.components(),
                descriptor.sources(),
                runner,
            ),
    {
        let entity = Entity { id: self.next_id };
        let row = Row::new();
        let ghost rows = self.rows@;
        let ghost listeners = self.listeners@;
        proof {
            if entries_has(rows, entity) {
                let k = entries_index(rows, entity);
                assert(0 <= k < rows.len() && rows[k].0 == entity);
                assert(rows[k].0.id < self.next_id);
            }
            lemma_entries_insert(rows, entity, row);
        }
        self.rows.insert(entity, row);
        self.next_id = self.next_id + 1;
        proof {
            assert(entries_map(self.rows@, row_view()) =~= entries_map(rows, row_view()).push(
                (entity, Seq::empty()),
            ));
            assert forall|k: int| 0 <= k < self.rows@.len() implies (#[trigger] self.rows@[k]).1.wf()
                && self.rows@[k].0.id < self.next_id by {
                if k < rows.len() {
                    assert(rows[k].1.wf() && rows[k].0.id < self.next_id);
                }
            }
        }
        self.observers.register(&mut self.archetypes, entity, runner, &descriptor);
        let listener = ObserverComponent { descriptor, runner, last_trigger_id: 0 };
        proof {
            lemma_entries_map_insert(listeners, listener_view(), entity, listener);
        }
        self.listeners.insert(entity, listener);
        entity
    }

    /// Puts the listener that lives on the row `entity` into the cache, under
    /// the descriptor that the store keeps for it.
    pub fn register_observer(&mut self, entity: Entity)
        requires
            old(self).wf(),
            entries_has(old(self)@.listeners, entity),
        ensures
            final(self).wf(),
            final(self)@ == (WorldState {
                observers: old(self)@.observers.register(
                    entity,
                    entries_get(old(self)@.listeners, entity).unwrap().runner,
                    entries_get(old(self)@.listeners, entity).unwrap().triggers,
                    entries_get(old(self)@.listeners, entity).unwrap().components,
                    entries_get(old(self)@.listeners, entity).unwrap().sources,
                ),
                ..old(self)@
            }),
    {
        proof {
            lemma_entries_map(self.listeners@, listener_view(), entity);
        }
        match self.listeners.get(entity) {
            Some(listener) => {
                self.observers.register(
                    &mut self.archetypes,
                    entity,
                    listener.runner,
                    &listener.descriptor,
                );
            },
            None => {},
        }
    }

    /// Takes the listener `entity` out of every place of the cache in which
    /// registration with `descriptor` puts a listener.
    pub fn unregister_observer(&mut self, entity: Entity, descriptor: ObserverDescriptor)
        requires
            old(self).wf(),
        ensures
            final(self).wf(),
            final(self)@ == (WorldState {
                observers: old(self)@.observers.unregister(
                    entity,
                    descriptor.triggers(),
                    descriptor.components(),
                    descriptor.sources(),
                ),
                ..old(self)@
            }),
    {
        self.observers.unregister(&mut self.archetypes, entity, &descriptor);
    }

    /// The flags of `component_id`: for which built-in signal kinds a
    /// listener is scoped to the component.
    pub fn archetype_flags(&self, component_id: ComponentId) -> (flags: ArchetypeFlags)
        requires
            self.wf(),
        ensures
            flags == self@.observers.flags_for(component_id),
    {
        let flags = self.archetypes.flags_of(component_id);
        proof {
            assert(flags.contains(ArchetypeFlags::for_on_add())
                == self.observers@.on_add.component_observers.contains_key(component_id));
            assert(flags.contains(ArchetypeFlags::for_on_insert())
                == self.observers@.on_insert.component_observers.contains_key(component_id));
            assert(flags.contains(ArchetypeFlags::for_on_remove())
                == self.observers@.on_remove.component_observers.contains_key(component_id));
        }
        flags
    }

    /// The observer cache.
    pub fn observers(&self) -> (observers: &Observers)
        ensures
            observers@ == self@.observers,
    {
        &self.observers
    }

    /// Whether the listener `observer` is to run in the dispatch with the
    /// number `dispatch`: it is, unless it is gone or has run in this
    /// dispatch before. A listener that is to run is marked as having run.
    pub fn claim_run(&mut self, observer: Entity, dispatch: u64) -> (run: bool)
        requires
            old(self).wf(),
        ensures
            final(self).wf(),
            run == old(self)@.may_run(observer, dispatch),
            final(self)@ == old(self)@.claimed(observer, dispatch),
    {
        let ghost listeners = self.listeners@;
        proof {
            lemma_entries_map(listeners, listener_view(), observer);
        }
        let run = match self.listeners.get_mut(observer) {
            Some(listener) => {
                if listener.last_trigger_id == dispatch {
                    false
                } else {
                    listener.last_trigger_id = dispatch;
                    true
                }
            },
            None => false,
        };
        proof {
            if entries_has(listeners, observer) {
                let at = entries_index(listeners, observer);
                assert(0 <= at < listeners.len() && listeners[at].0 == observer);
                assert(entries_map(self.listeners@, listener_view()) =~= old(self)@.claimed(
                    observer,
                    dispatch,
                ).listeners);
            } else {
                assert(entries_map(self.listeners@, listener_view()) =~= entries_map(
                    listeners,
                    listener_view(),
                ));
            }
        }
        run
    }

    /// The queue of structural changes, to be added to.
    pub fn commands(&mut self) -> (queue: &mut CommandQueue)
        requires
            old(self).wf(),
        ensures
            queue@ == old(self)@.commands,
            final(self).wf(),
            final(self)@ == (WorldState { commands: final(queue)@, ..old(self)@ }),
    {
        &mut self.commands
    }

    /// Number of commands that wait to be applied.
    pub fn commands_len(&self) -> (n: usize)
        ensures
            n == self@.commands.len(),
    {
        self.commands.len()
    }

    /// Applies `command` and returns the dispatches this causes. A command
    /// about a row that is gone does nothing.
    pub fn apply(&mut self, command: Command) -> (r: Vec<Dispatch>)
        requires
            old(self).wf(),
        ensures
            final(self).wf(),
            final(self)@ == old(self)@.applied(command),
            dispatches(r@) == old(self)@.command_signals(command),
    {
        let result = match command {
            Command::Insert { entity, component, value } => self.insert(entity, component, value),
            Command::Remove { entity, component } => self.remove(entity, component),
            Command::Despawn { entity } => self.despawn(entity),
            Command::Trigger { trigger, target } => {
                let touched: Vec<ComponentId> = Vec::new();
                let dispatch = self.trigger_observers(trigger, target, &touched);
                let mut out: Vec<Dispatch> = Vec::new();
                out.push(dispatch);
                assert(dispatches(out@) =~= old(self)@.command_signals(command));
                Some(out)
            },
        };
        match result {
            Some(out) => out,
            None => {
                let out: Vec<Dispatch> = Vec::new();
                assert(dispatches(out@) =~= old(self)@.command_signals(command));
                out
            },
        }
    }

    /// Takes the oldest command from the queue, applies it and returns the
    /// dispatches this causes. With an empty queue nothing happens and nothing
    /// is returned.
    pub fn flush_next(&mut self) -> (r: Option<Vec<Dispatch>>)
        requires
            old(self).wf(),
        ensures
            final(self).wf(),
            r.is_some() == (old(self)@.commands.len() > 0),
            r.is_none() ==> final(self)@ == old(self)@,
            r.is_some() ==> final(self)@ == old(self)@.unqueued().applied(old(self)@.commands[0])
                && dispatches(r.unwrap()@) == old(self)@.unqueued().command_signals(
                old(self)@.commands[0],
            ),
    {
        match self.commands.pop() {
            Some(command) => Some(self.apply(command)),
            None => None,
        }
    }

    /// Gives the resource `id` the value `value`, whether or not the store
    /// had the resource.
    pub fn insert_resource(&mut self, id: ComponentId, value: usize)
        requires
            old(self).wf(),
        ensures
            final(self).wf(),
            final(self)@ == (WorldState {
                resources: entries_insert(old(self)@.resources, id, value),
                ..old(self)@
            }),
    {
        self.resources.insert(id, value);
    }

    /// The value of the resource `id`, if the store has it.
    pub fn resource(&self, id: ComponentId) -> (value: Option<usize>)
        requires
            self.wf(),
        ensures
            value == entries_get(self@.resources, id),
    {
        match self.resources.get(id) {
            Some(value) => Some(*value),
            None => None,
        }
    }

    /// The component that the type key `type_key` is registered under, if it
    /// is registered.
    pub fn component_id(&self, type_key: u64) -> (id: Option<ComponentId>)
        requires
            self.wf(),
        ensures
            id == registry_get(self@.registry, type_key),
    {
        let mut i: usize = 0;
        while i < self.registry.len()
            invariant
                i <= self.registry.len(),
                registry_unique(self.registry@),
                forall|j: int| 0 <= j < i ==> (#[trigger] self.registry@[j]).0 != type_key,
            decreases self.registry.len() - i,
        {
            if self.registry[i].0 == type_key {
                proof {
                    let registry = self.registry@;
                    let chosen = choose|k: int|
                        0 <= k < registry.len() && (#[trigger] registry[k]).0 == type_key;
                    assert(registry[i as int].0 == type_key);
                    if chosen < i {
                        assert(registry[chosen].0 != registry[i as int].0);
                    } else if i < chosen {
                        assert(registry[i as int].0 != registry[chosen].0);
                    }
                }
                return Some(self.registry[i].1);
            }
            i = i + 1;
        }
        None
    }

    /// The component registered under the type key `type_key`. A key that is
    /// not registered yet is given the next identifier; such a component is
    /// no row.
    pub fn init_component(&mut self, type_key: u64) -> (id: ComponentId)
        requires
            old(self).wf(),
            registry_get(old(self)@.registry, type_key).is_some() || old(self)@.next_id
                < PLACEHOLDER_ID,
        ensures
            final(self).wf(),
            final(self)@ == old(self)@.with_component(type_key),
            Some(id) == registry_get(final(self)@.registry, type_key),
    {
        match self.component_id(type_key) {
            Some(id) => id,
            None => {
                let id = Entity { id: self.next_id };
                self.registry.push((type_key, id));
                self.next_id = self.next_id + 1;
                proof {
                    let registry = self.registry@;
                    let before = old(self).registry@;
                    assert forall|i: int, j: int| 0 <= i < j < registry.len() implies (
                    #[trigger] registry[i]).0 != (#[trigger] registry[j]).0 by {
                        assert(registry[i] == before[i]);
                        if j < before.len() {
                            assert(registry[j] == before[j]);
                        }
                    }
                    let last = registry.len() - 1;
                    assert(registry[last].0 == type_key);
                    let chosen = choose|k: int|
                        0 <= k < registry.len() && (#[trigger] registry[k]).0 == type_key;
                    if chosen < last {
                        assert(registry[chosen].0 != registry[last].0);
                    }
                    assert forall|k: int| 0 <= k < self.rows@.len() implies (
                    #[trigger] self.rows@[k]).1.wf() && self.rows@[k].0.id < self.next_id by {
                        assert(old(self).rows@[k].0.id < old(self).next_id);
                    }
                }
                id
            },
        }
    }

    /// The value of `component` on the row `entity`, to be changed in place.
    pub fn get_mut(&mut self, entity: Entity, component: ComponentId) -> (value: Option<&mut usize>)
        requires
            old(self).wf(),
        ensures
            final(self).wf(),
            match value {
                Some(v) => old(self)@.value(entity, component) == Some(*v) && final(self)@ == old(
                    self,
                )@.with_value(entity, component, *final(v)),
                None => old(self)@.value(entity, component).is_none() && final(self)@ == old(self)@,
            },
    {
        let ghost rows = self.rows@;
        proof {
            lemma_entries_map(rows, row_view(), entity);
            if entries_has(rows, entity) {
                let i = entries_index(rows, entity);
                assert(0 <= i < rows.len() && rows[i].0 == entity);
                assert(rows[i].1.wf());
            }
        }
        match self.rows.get_mut(entity) {
            Some(row) => {
                let ghost after = *final(row);
                let value = row.get_mut(component);
                proof {
                    lemma_rows_update(rows, entity, after);
                    let changed = rows.update(entries_index(rows, entity), (entity, after));
                    assert forall|i: int| 0 <= i < changed.len() implies (#[trigger] changed[i]).1.wf()
                        && changed[i].0.id < self.next_id by {
                        assert(rows[i].1.wf() && rows[i].0.id < self.next_id);
                    }
                    if value.is_none() {
                        assert(entries_map(changed, row_view()) =~= entries_map(rows, row_view()));
                    }
                }
                value
            },
            None => None,
        }
    }

    /// The value of the resource `id`, to be changed in place.
    pub fn resource_mut(&mut self, id: ComponentId) -> (value: Option<&mut usize>)
        requires
            old(self).wf(),
        ensures
            final(self).wf(),
            match value {
                Some(v) => entries_get(old(self)@.resources, id) == Some(*v) && final(self)@ == (
                WorldState {
                    resources: entries_insert(old(self)@.resources, id, *final(v)),
                    ..old(self)@
                }),
                None => entries_get(old(self)@.resources, id).is_none() && final(self)@ == old(
                    self,
                )@,
            },
    {
        self.resources.get_mut(id)
    }

    /// Gives the thread-bound resource `id` the value `value`, whether or not
    /// the store had the resource.
    pub fn insert_non_send_resource(&mut self, id: ComponentId, value: usize)
        requires
            old(self).wf(),
        ensures
            final(self).wf(),
            final(self)@ == (WorldState {
                non_send: entries_insert(old(self)@.non_send, id, value),
                ..old(self)@
            }),
    {
        self.non_send.insert(id, value);
    }

    /// The value of the thread-bound resource `id`, if the store has it.
    pub fn non_send_resource(&self, id: ComponentId) -> (value: Option<usize>)
        requires
            self.wf(),
        ensures
            value == entries_get(self@.non_send, id),
    {
        match self.non_send.get(id) {
            Some(value) => Some(*value),
            None => None,
        }
    }

    /// The value of the thread-bound resource `id`, to be changed in place.
    pub fn non_send_resource_mut(&mut self, id: ComponentId) -> (value: Option<&mut usize>)
        requires
            old(self).wf(),
        ensures
            final(self).wf(),
            match value {
                Some(v) => entries_get(old(self)@.non_send, id) == Some(*v) && final(self)@ == (
                WorldState {
                    non_send: entries_insert(old(self)@.non_send, id, *final(v)),
                    ..old(self)@
                }),
                None => entries_get(old(self)@.non_send, id).is_none() && final(self)@ == old(
                    self,
                )@,
            },
    {
        self.non_send.get_mut(id)
    }

    /// Makes the store take events of the kind `kind`. The events of a kind
    /// that it takes already stay.
    pub fn add_event(&mut self, kind: ComponentId)
        requires
            old(self).wf(),
        ensures
            final(self).wf(),
            final(self)@ == (WorldState {
                events: if entries_has(old(self)@.events, kind) {
                    old(self)@.events
                } else {
                    old(self)@.events.push((kind, Seq::empty()))
                },
                ..old(self)@
            }),
    {
        let ghost events = self.events@;
        proof {
            lemma_entries_map(events, events_view(), kind);
        }
        if !self.events.contains(kind) {
            let sent: Vec<usize> = Vec::new();
            self.events.insert(kind, sent);
            proof {
                assert(entries_map(self.events@, events_view()) =~= entries_map(
                    events,
                    events_view(),
                ).push((kind, Seq::empty())));
            }
        }
    }

    /// Number of events of the kind `kind` that were sent, if the store
    /// takes events of that kind.
    pub fn events_len(&self, kind: ComponentId) -> (n: Option<usize>)
        requires
            self.wf(),
        ensures
            n.is_some() == entries_has(self@.events, kind),
            n.is_some() ==> n.unwrap() == self@.events_of(kind).len(),
    {
        proof {
            lemma_entries_map(self.events@, events_view(), kind);
        }
        match self.events.get(kind) {
            Some(sent) => Some(sent.len()),
            None => None,
        }
    }

    /// Sends the events `values` of the kind `kind`, in their order, and
    /// returns the number of the first of them and how many they are. Where
    /// the store does not take events of that kind, nothing is sent and
    /// nothing is returned.
    pub fn send_event_batch(&mut self, kind: ComponentId, values: &Vec<usize>) -> (ids: Option<
        (usize, usize),
    >)
        requires
            old(self).wf(),
        ensures
            final(self).wf(),
            final(self)@ == old(self)@.sent(kind, values@),
            ids == if entries_has(old(self)@.events, kind) {
                Some((old(self)@.events_of(kind).len() as usize, values@.len() as usize))
            } else {
                None
            },
    {
        let ghost events = self.events@;
        proof {
            lemma_entries_map(events, events_view(), kind);
        }
        match self.events.get_mut(kind) {
            Some(sent) => {
                let first = sent.len();
                let ghost before = sent@;
                let mut i: usize = 0;
                while i < values.len()
                    invariant
                        i <= values.len(),
                        sent@ == before + values@.take(i as int),
                    decreases values.len() - i,
                {
                    sent.push(values[i]);
                    proof {
                        assert(sent@ =~= before + values@.take(i + 1));
                    }
                    i = i + 1;
                }
                proof {
                    assert(values@.take(values.len() as int) =~= values@);
                    let at = entries_index(events, kind);
                    assert(0 <= at < events.len() && events[at].0 == kind);
                    let changed = events.update(at, (kind, *sent));
                    assert(entries_map(changed, events_view()) =~= entries_insert(
                        entries_map(events, events_view()),
                        kind,
                        before + values@,
                    ));
                }
                Some((first, values.len()))
            },
            None => None,
        }
    }

    /// Sends one event of the kind `kind` and returns its number. Where the
    /// store does not take events of that kind, nothing is sent and nothing
    /// is returned.
    pub fn send_event(&mut self, kind: ComponentId, value: usize) -> (id: Option<usize>)
        requires
            old(self).wf(),
        ensures
            final(self).wf(),
            final(self)@ == old(self)@.sent(kind, seq![value]),
            id == if entries_has(old(self)@.events, kind) {
                Some(old(self)@.events_of(kind).len() as usize)
            } else {
                None
            },
    {
        let mut values: Vec<usize> = Vec::new();
        values.push(value);
        assert(values@ =~= seq![value]);
        match self.send_event_batch(kind, &values) {
            Some(ids) => Some(ids.0),
            None => None,
        }
    }

    /// The rows that match `state`, in the order in which they were created.
    pub fn query(&self, state: &QueryState) -> (rows: Vec<Entity>)
        requires
            self.wf(),
            state.wf(),
        ensures
            rows@ == matching_rows(self@.rows, *state),
    {
        let mut out: Vec<Entity> = Vec::new();
        let mut i: usize = 0;
        proof {
            assert(self@.rows.take(0) =~= Seq::empty());
        }
        while i < self.rows.len()
            invariant
                i <= self.rows@.len(),
                self.wf(),
                state.wf(),
                out@ == matching_rows(self@.rows.take(i as int), *state),
            decreases self.rows@.len() - i,
        {
            let entry = self.rows.entry(i);
            let ids = entry.1.component_ids();
            proof {
                assert(self@.rows.take(i + 1).drop_last() =~= self@.rows.take(i as int));
                assert(self@.rows.take(i + 1).last() == (entry.0, entry.1@));
            }
            if state.matches(&ids) {
                out.push(entry.0);
            }
            i = i + 1;
        }
        proof {
            assert(self@.rows.take(self.rows@.len() as int) =~= self@.rows);
        }
        out
    }
}

/// The rows that match the query `state`, in their order.
pub open spec fn matching_rows(rows: Entries<Entries<usize>>, state: QueryState) -> Seq<Entity>
    decreases rows.len(),
{
    if rows.len() == 0 {
        Seq::empty()
    } else if state.matches_set(entries_keys(rows.last().1).to_set()) {
        matching_rows(rows.drop_last(), state).push(rows.last().0)
    } else {
        matching_rows(rows.drop_last(), state)
    }
}

/// Changing one row in place is, for the store as a value, giving that row
/// new components.
proof fn lemma_rows_update(rows: Entries<Row>, entity: Entity, row: Row)
    requires
        entries_unique(rows),
        entries_has(rows, entity),
    ensures
        entries_map(rows.update(entries_index(rows, entity), (entity, row)), row_view())
            == entries_insert(entries_map(rows, row_view()), entity, row@),
{
    lemma_entries_map(rows, row_view(), entity);
    assert(entries_map(rows.update(entries_index(rows, entity), (entity, row)), row_view())
        =~= entries_insert(entries_map(rows, row_view()), entity, row@));
}

} // verus!
